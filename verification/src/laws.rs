//! What holds of the library as a whole: where requests go and how many there
//! are, what leads to a video, and whose candidates are taken for it.
use crate::address::{
    candidate_url, canonical_document, classified, clean_play, detail_address, digits_end,
    document_checked,
    has_media_ending, image_url, is_on_document_host, is_on_image_host, is_on_media_host,
    is_picture_path, is_plain_https, is_play_path, is_video_at, is_video_id, media_checked,
    playback_variant, share_document, video_document, video_from, video_in, Directness,
};
use crate::candidates::{score_of, MetadataModel};
use crate::collect::{document_visited, visited_roots, Collected};
use crate::downloads::{DownloadModel, Kind, MAX_DOWNLOAD_REQUESTS};
use crate::errors::ErrorModel;
use crate::fetch::{
    DiscoveryModel, DocumentFetchModel, MediaRedirectModel, ReplyModel, VideoDocumentModel,
    MAX_DOCUMENT_REQUESTS, MAX_MEDIA_REQUESTS, MAX_REDIRECTS,
};
use crate::json::{Json, JsonMember};
use crate::roots::{
    is_root, noted, searched, searched_items, searched_members, video_search, Search,
    MAX_JSON_LEVELS, MAX_JSON_NODES,
};
use crate::text::{holds_text, is_digit, lower, occurs_at};
use crate::weburl::UrlModel;
use vstd::prelude::*;

verus! {

/// Share documents are read from plain HTTPS URLs on the listed hosts, and from
/// no others; a share text leads to such a URL or to an error.
pub proof fn documents_come_from_listed_hosts(url: UrlModel, share_text: Seq<char>)
    ensures
        document_checked(url) is Ok <==> is_on_document_host(url),
        document_checked(url) matches Ok(checked) ==> checked == url,
        share_document(share_text) matches Ok(found) ==> is_on_document_host(found),
{
}

/// A video's details are requested where its document is: the origin, with the
/// scheme, the host and the port, and all that stands before the path are the
/// document's, and the query names the video and is otherwise always the same.
pub proof fn details_come_from_the_document_origin(
    document: UrlModel,
    id: Seq<char>,
    detail: UrlModel,
)
    requires
        detail_address(document, id) == Ok::<UrlModel, ErrorModel>(detail),
    ensures
        detail.origin() == document.origin(),
        detail.scheme == document.scheme,
        detail.host == document.host,
        detail.port == document.port,
        detail.before_path == document.before_path,
        detail.path == "/aweme/v1/aweme/detail/"@,
        detail.query == Some(
            "aweme_id="@ + id
                + "&aid=6383&device_platform=web&version_code=280500&version_name=28.5.0"@,
        ),
        detail.fragment is None,
        is_on_document_host(document) ==> is_on_document_host(detail),
{
}

proof fn lemma_digits_end(path: Seq<char>, from: int, end: int)
    requires
        0 <= from <= end < path.len(),
        forall|i: int| from <= i < end ==> is_digit(#[trigger] path[i]),
        !is_digit(path[end]),
    ensures
        digits_end(path, from) == end,
    decreases end - from,
{
    if from < end {
        lemma_digits_end(path, from + 1, end);
    }
}

/// Every video has a document, which is on a listed host and shows that video.
pub proof fn video_documents_show_their_video(id: Seq<char>)
    requires
        is_video_id(id),
    ensures
        canonical_document(id) == Ok::<UrlModel, ErrorModel>(video_document(id)),
        is_on_document_host(video_document(id)),
        document_checked(video_document(id)) is Ok,
        video_in(video_document(id)) == Some(id),
{
    reveal_strlit("https");
    reveal_strlit("www.iesdouyin.com");
    reveal_strlit("/share/video/");
    reveal_strlit("/video/");
    reveal_strlit("/note/");
    reveal_strlit("/");
    let name = "www.iesdouyin.com"@;
    assert(lower(name) =~= name);
    let path = "/share/video/"@ + id + "/"@;
    assert forall|at: int| 0 <= at < 6 implies !is_video_at(path, at) by {
        if occurs_at(path, "/video/"@, at) {
            assert(path.subrange(at, at + 7)[0] == path[at]);
            assert(path.subrange(at, at + 7)[1] == path[at + 1]);
        }
        if occurs_at(path, "/note/"@, at) {
            assert(path.subrange(at, at + 6)[0] == path[at]);
            assert(path.subrange(at, at + 6)[1] == path[at + 1]);
        }
    }
    assert(path.subrange(6, 13) =~= "/video/"@);
    assert(occurs_at(path, "/video/"@, 6));
    assert(path[13] == id[0]);
    assert(is_video_at(path, 6));
    reveal_with_fuel(video_from, 8);
    assert forall|i: int| 13 <= i < 13 + id.len() implies is_digit(#[trigger] path[i]) by {
        assert(path[i] == id[i - 13]);
    }
    lemma_digits_end(path, 13, 13 + id.len() as int);
    assert(path.subrange(13, 13 + id.len() as int) =~= id);
}

/// Media is fetched from plain HTTPS URLs on the media hosts, whatever text or
/// redirect the URL comes from. A URL's named host is its host.
pub proof fn media_comes_from_media_hosts(url: UrlModel)
    requires
        url.domain is Some ==> url.host == url.domain,
    ensures
        media_checked(url) is Ok ==> is_on_media_host(url),
        media_checked(url) matches Ok(checked) ==> checked == url,
{
}

/// Images are fetched from plain HTTPS URLs on the image hosts.
pub proof fn images_come_from_image_hosts(address: Seq<char>)
    ensures
        image_url(address) matches Some(url) ==> is_on_image_host(url),
{
}

/// Media candidates are plain HTTPS URLs with a named host, without a fragment,
/// and not those of pictures.
pub proof fn candidates_are_plain_https(address: Seq<char>)
    ensures
        candidate_url(address) matches Some(url) ==> {
            &&& is_plain_https(url)
            &&& url.domain is Some
            &&& url.fragment is None
            &&& !is_picture_path(lower(url.path))
        },
{
}

/// The kind of playback agrees with what a URL leads to: media files are
/// `direct`, and only play endpoints are `play` or `playwm`.
pub proof fn playback_agrees_with_directness(url: UrlModel)
    ensures
        classified(url) == Directness::CdnMedia ==> playback_variant(url) == Some("direct"@),
        playback_variant(url) == Some("direct"@) ==> classified(url) == Directness::CdnMedia,
        playback_variant(url) == Some("play"@) || playback_variant(url) == Some("playwm"@)
            ==> classified(url) == Directness::PlayEndpoint,
        classified(url) == Directness::Unknown ==> playback_variant(url) is None,
{
    reveal_strlit("direct");
    reveal_strlit("play");
    reveal_strlit("playwm");
    reveal_strlit("/aweme/v1/play/");
    reveal_strlit("/aweme/v1/playwm/");
    assert("direct"@[0] != "play"@[0]);
    assert("direct"@[0] != "playwm"@[0]);
    assert("/aweme/v1/play/"@.is_prefix_of("/aweme/v1/play/"@));
    assert("/aweme/v1/playwm/"@.is_prefix_of("/aweme/v1/playwm/"@));
}

/// The URLs that a search requests, given the replies to them.
pub open spec fn discovery_requests(state: DiscoveryModel, replies: Seq<ReplyModel>) -> Seq<
    UrlModel,
>
    decreases replies.len(),
{
    if replies.len() == 0 || state.reached() != Ok::<
        Option<VideoDocumentModel>,
        ErrorModel,
    >(None) {
        Seq::empty()
    } else {
        match state.followed(replies[0]) {
            Ok(next) => seq![state.current] + discovery_requests(next, replies.skip(1)),
            Err(_) => seq![state.current],
        }
    }
}

/// A search requests URLs on the listed hosts alone, and no more of them than
/// redirects are followed, whatever the replies say.
pub proof fn discovery_stays_on_listed_hosts(state: DiscoveryModel, replies: Seq<ReplyModel>)
    requires
        document_checked(state.current) is Ok,
        state.hops <= MAX_REDIRECTS,
    ensures
        discovery_requests(state, replies).len() <= MAX_REDIRECTS - state.hops,
        forall|i: int|
            0 <= i < discovery_requests(state, replies).len() ==> is_on_document_host(
                #[trigger] discovery_requests(state, replies)[i],
            ),
    decreases replies.len(),
{
    if replies.len() > 0 && state.reached() == Ok::<
        Option<VideoDocumentModel>,
        ErrorModel,
    >(None) {
        if let Ok(next) = state.followed(replies[0]) {
            discovery_stays_on_listed_hosts(next, replies.skip(1));
        }
    }
}

/// The URLs that are requested for a document, given the replies to them.
pub open spec fn document_requests(state: DocumentFetchModel, replies: Seq<ReplyModel>) -> Seq<
    UrlModel,
>
    decreases replies.len(),
{
    if replies.len() == 0 || state.requests >= MAX_DOCUMENT_REQUESTS {
        Seq::empty()
    } else {
        match state.received(replies[0]) {
            Ok(Some(next)) => seq![state.current] + document_requests(next, replies.skip(1)),
            _ => seq![state.current],
        }
    }
}

/// The document of a video is requested from the listed hosts alone, and there
/// is a limit to the requests, whatever the replies say.
pub proof fn documents_are_requested_from_listed_hosts(id: Seq<char>, replies: Seq<ReplyModel>)
    requires
        is_video_id(id),
    ensures
        ({
            let state = DocumentFetchModel { id, current: video_document(id), requests: 0 };
            let requests = document_requests(state, replies);
            &&& requests.len() <= MAX_DOCUMENT_REQUESTS
            &&& forall|i: int|
                0 <= i < requests.len() ==> is_on_document_host(#[trigger] requests[i])
        }),
{
    video_documents_show_their_video(id);
    document_redirects_stay_on_listed_hosts(
        DocumentFetchModel { id, current: video_document(id), requests: 0 },
        replies,
    );
}

/// From a listed host, a document is requested from the listed hosts alone, and
/// there is a limit to the requests, whatever the replies say.
pub proof fn document_redirects_stay_on_listed_hosts(
    state: DocumentFetchModel,
    replies: Seq<ReplyModel>,
)
    requires
        is_on_document_host(state.current),
        state.requests <= MAX_DOCUMENT_REQUESTS,
    ensures
        document_requests(state, replies).len() <= MAX_DOCUMENT_REQUESTS - state.requests,
        forall|i: int|
            0 <= i < document_requests(state, replies).len() ==> is_on_document_host(
                #[trigger] document_requests(state, replies)[i],
            ),
    decreases replies.len(),
{
    if replies.len() > 0 && state.requests < MAX_DOCUMENT_REQUESTS {
        if let Ok(Some(next)) = state.received(replies[0]) {
            document_redirects_stay_on_listed_hosts(next, replies.skip(1));
        }
    }
}

/// The URLs that are requested from a play endpoint on, given the replies.
pub open spec fn media_requests(state: MediaRedirectModel, replies: Seq<ReplyModel>) -> Seq<
    UrlModel,
>
    decreases replies.len(),
{
    if replies.len() == 0 || state.reached() != Ok::<Option<UrlModel>, ErrorModel>(None) {
        Seq::empty()
    } else {
        match state.followed(replies[0]) {
            Ok(next) => seq![state.current] + media_requests(next, replies.skip(1)),
            Err(_) => seq![state.current],
        }
    }
}

/// From a play endpoint on, play endpoints alone are requested, and there is a
/// limit to the requests, whatever the replies say.
pub proof fn media_redirects_stay_on_play_endpoints(
    state: MediaRedirectModel,
    replies: Seq<ReplyModel>,
)
    requires
        media_checked(state.current) is Ok,
        state.requests <= MAX_MEDIA_REQUESTS,
    ensures
        media_requests(state, replies).len() <= MAX_MEDIA_REQUESTS - state.requests,
        forall|i: int|
            0 <= i < media_requests(state, replies).len() ==> {
                let url = #[trigger] media_requests(state, replies)[i];
                media_checked(url) is Ok && classified(url) == Directness::PlayEndpoint
            },
    decreases replies.len(),
{
    if replies.len() > 0 && state.reached() == Ok::<Option<UrlModel>, ErrorModel>(None) {
        if let Ok(next) = state.followed(replies[0]) {
            media_redirects_stay_on_play_endpoints(next, replies.skip(1));
        }
    }
}

/// The URLs that are requested for a download, given the replies to them.
pub open spec fn download_requests(state: DownloadModel, replies: Seq<ReplyModel>) -> Seq<UrlModel>
    decreases replies.len(),
{
    if replies.len() == 0 || state.requests >= MAX_DOWNLOAD_REQUESTS {
        Seq::empty()
    } else {
        match state.received(replies[0]) {
            Ok(Some(next)) => seq![state.current] + download_requests(next, replies.skip(1)),
            _ => seq![state.current],
        }
    }
}

/// The URL may be downloaded from.
pub open spec fn is_download_url(kind: Kind, url: UrlModel) -> bool {
    match kind {
        Kind::Media => media_checked(url) is Ok,
        Kind::Image => is_on_image_host(url),
    }
}

/// A download is requested from URLs that may be downloaded from, and there is a
/// limit to the requests, whatever the replies say.
pub proof fn download_redirects_stay_allowed(state: DownloadModel, replies: Seq<ReplyModel>)
    requires
        is_download_url(state.kind, state.current),
        state.requests <= MAX_DOWNLOAD_REQUESTS,
    ensures
        download_requests(state, replies).len() <= MAX_DOWNLOAD_REQUESTS - state.requests,
        forall|i: int|
            0 <= i < download_requests(state, replies).len() ==> is_download_url(
                state.kind,
                #[trigger] download_requests(state, replies)[i],
            ),
    decreases replies.len(),
{
    if replies.len() > 0 && state.requests < MAX_DOWNLOAD_REQUESTS {
        if let Ok(Some(next)) = state.received(replies[0]) {
            download_redirects_stay_allowed(next, replies.skip(1));
        }
    }
}

proof fn lemma_play_paths()
    ensures
        lower("/aweme/v1/play/"@) == "/aweme/v1/play/"@,
        lower("/aweme/v1/playwm/"@) == "/aweme/v1/playwm/"@,
        is_play_path("/aweme/v1/play/"@),
        is_play_path("/aweme/v1/playwm/"@),
        !holds_text("/aweme/v1/play/"@, "/playwm/"@),
        holds_text("/aweme/v1/playwm/"@, "/playwm/"@),
        !holds_text("/aweme/v1/play/"@, "/video/"@),
        !holds_text("/aweme/v1/playwm/"@, "/video/"@),
        !has_media_ending("/aweme/v1/play/"@),
        !has_media_ending("/aweme/v1/playwm/"@),
        "/aweme/v1/play/"@ != "/aweme/v1/playwm/"@,
{
    reveal_strlit("/aweme/v1/play/");
    reveal_strlit("/aweme/v1/playwm/");
    reveal_strlit("/playwm/");
    reveal_strlit("/video/");
    reveal_strlit(".mp4");
    reveal_strlit(".m4v");
    reveal_strlit(".mov");
    let clean = "/aweme/v1/play/"@;
    let marked = "/aweme/v1/playwm/"@;
    assert(lower(clean) =~= clean);
    assert(lower(marked) =~= marked);
    assert(clean.is_prefix_of(clean));
    assert(marked.is_prefix_of(marked));
    assert(marked.subrange(9, 17) =~= "/playwm/"@);
    assert(occurs_at(marked, "/playwm/"@, 9));
    assert forall|at: int| !occurs_at(clean, "/playwm/"@, at) by {
        if occurs_at(clean, "/playwm/"@, at) {
            assert(clean.subrange(at, at + 8)[0] == clean[at]);
            assert(clean.subrange(at, at + 8)[1] == clean[at + 1]);
        }
    }
    assert forall|at: int| !occurs_at(clean, "/video/"@, at) by {
        if occurs_at(clean, "/video/"@, at) {
            assert(clean.subrange(at, at + 7)[0] == clean[at]);
            assert(clean.subrange(at, at + 7)[2] == clean[at + 2]);
        }
    }
    assert forall|at: int| !occurs_at(marked, "/video/"@, at) by {
        if occurs_at(marked, "/video/"@, at) {
            assert(marked.subrange(at, at + 7)[0] == marked[at]);
            assert(marked.subrange(at, at + 7)[2] == marked[at + 2]);
        }
    }
    lemma_not_ending(clean);
    lemma_not_ending(marked);
    assert(clean.len() != marked.len());
}

/// A path that ends in a slash has not the ending of a media file.
proof fn lemma_not_ending(path: Seq<char>)
    requires
        path.len() > 4,
        path.last() == '/',
    ensures
        !has_media_ending(path),
{
    reveal_strlit(".mp4");
    reveal_strlit(".m4v");
    reveal_strlit(".mov");
    assert(path.subrange(path.len() - 4, path.len() as int)[3] == '/');
}

/// The endpoint without a mark differs from the one with a mark in the path
/// alone, is accepted wherever that one is, leads to the same kind of thing, and
/// has no further endpoint without a mark.
pub proof fn clean_playback_changes_only_the_path(url: UrlModel, clean: UrlModel)
    requires
        clean_play(url) == Some(clean),
        media_checked(url) is Ok,
    ensures
        clean == (UrlModel { path: "/aweme/v1/play/"@, ..url }),
        url == (UrlModel { path: "/aweme/v1/playwm/"@, ..clean }),
        media_checked(clean) is Ok,
        classified(clean) == classified(url),
        clean_play(clean) is None,
{
    lemma_play_paths();
}

/// With all else the same, the endpoint without a mark scores above the one with
/// a mark, unless its query asks for a mark.
pub proof fn clean_playback_outranks_marked(
    points: int,
    url: UrlModel,
    clean: UrlModel,
    metadata: MetadataModel,
)
    requires
        clean_play(url) == Some(clean),
        !url.pairs().contains(("watermark"@, "1"@)),
    ensures
        score_of(points, clean, classified(clean), metadata) == score_of(
            points,
            url,
            classified(url),
            metadata,
        ) + 3500,
{
    lemma_play_paths();
}

/// The objects that a document is searched for name the requested video and
/// hold it.
proof fn lemma_searched(node: Json, id: Seq<char>, levels: nat, search: Search)
    requires
        holds_roots(search, id),
    ensures
        holds_roots(searched(node, id, levels, search), id),
        search.identified ==> searched(node, id, levels, search).identified,
    decreases levels, 0nat,
{
    if levels > 0 && search.nodes <= MAX_JSON_NODES {
        let counted = Search { nodes: search.nodes + 1, ..search };
        match node {
            Json::Object(members) => {
                lemma_searched_members(
                    members@,
                    members@.len(),
                    id,
                    (levels - 1) as nat,
                    noted(node, id, counted),
                );
            },
            Json::Array(items) => {
                lemma_searched_items(items@, items@.len(), id, (levels - 1) as nat, counted);
            },
            _ => {},
        }
    }
}

proof fn lemma_searched_items(
    items: Seq<Json>,
    count: nat,
    id: Seq<char>,
    levels: nat,
    search: Search,
)
    requires
        holds_roots(search, id),
    ensures
        holds_roots(searched_items(items, count, id, levels, search), id),
        search.identified ==> searched_items(items, count, id, levels, search).identified,
    decreases levels, count + 1,
{
    if count > 0 {
        lemma_searched_items(items, (count - 1) as nat, id, levels, search);
        lemma_searched(
            items[count - 1],
            id,
            levels,
            searched_items(items, (count - 1) as nat, id, levels, search),
        );
    }
}

proof fn lemma_searched_members(
    members: Seq<JsonMember>,
    count: nat,
    id: Seq<char>,
    levels: nat,
    search: Search,
)
    requires
        holds_roots(search, id),
    ensures
        holds_roots(searched_members(members, count, id, levels, search), id),
        search.identified ==> searched_members(members, count, id, levels, search).identified,
    decreases levels, count + 1,
{
    if count > 0 {
        lemma_searched_members(members, (count - 1) as nat, id, levels, search);
        lemma_searched(
            members[count - 1].value,
            id,
            levels,
            searched_members(members, (count - 1) as nat, id, levels, search),
        );
    }
}

/// The objects that were found name the video and hold it, and one that was
/// found was one that names a video.
pub open spec fn holds_roots(search: Search, id: Seq<char>) -> bool {
    &&& forall|i: int| 0 <= i < search.roots.len() ==> is_root(#[trigger] search.roots[i], id)
    &&& search.roots.len() > 0 ==> search.identified
}

/// A requested video never takes candidates from another. Of a document in which
/// an object names any video, only objects are visited that name the requested
/// video and hold it; where there are none, nothing is collected.
pub proof fn requested_video_is_not_mixed_with_others(
    value: Json,
    origin: Seq<char>,
    id: Seq<char>,
    state: Collected,
)
    requires
        video_search(value, id).identified,
    ensures
        ({
            let roots = video_search(value, id).roots;
            &&& forall|i: int| 0 <= i < roots.len() ==> is_root(#[trigger] roots[i], id)
            &&& document_visited(value, origin, Some(id), state) == visited_roots(
                roots,
                roots.len(),
                origin,
                state,
            )
            &&& roots.len() == 0 ==> document_visited(value, origin, Some(id), state) == state
        }),
{
    lemma_searched(
        value,
        id,
        MAX_JSON_LEVELS as nat,
        Search { nodes: 0, roots: Seq::empty(), identified: false },
    );
}

} // verus!
