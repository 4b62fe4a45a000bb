//! What the search for a video and its media file comes to, stated by what goes
//! in and what comes out: which endpoints are tried, what a reply leads to, and
//! what is reported in the end.
use crate::address::{classified, clean_play, media_read, video_in, Directness};
use crate::decode::unsigned_value;
use crate::errors::ErrorModel;
use crate::fetch::{
    declares_too_much, detail_of, detail_read, detail_refused, document_redirect, stated_status,
    DiscoveryModel, DocumentFetchModel, MediaRedirectModel, ReplyModel, VideoDocumentModel,
};
use crate::json::{json_parsed, member, Json};
use crate::ranking::CandidateModel;
use crate::resolution::{attempts_of, AttemptModel, SearchModel, StepModel};
use crate::response::{ResolutionModel, Stage};
use crate::text::{decimal, lower};
use crate::text_laws::is_around;
use crate::weburl::{url_joined, url_parsed, UrlModel};
use vstd::prelude::*;

verus! {

/// An endpoint that led to a file: the file is what is found, with the kind of
/// playback of that endpoint, and the endpoint is used up. A warning is added
/// only where an endpoint with a mark took the place of one without.
pub proof fn the_file_that_was_reached_is_found(
    search: SearchModel,
    url: Seq<char>,
    warnings: Seq<Seq<char>>,
)
    requires
        search.pending.len() > 0,
    ensures
        ({
            let (found, after, warned) = search.concluded(Ok(url), warnings);
            let replaced = search.clean_failed && search.pending[0].variant == "playwm"@;
            let words =
                "The clean playback variant was unavailable; the original playback entry was used."@;
            &&& found matches Some(media) && media.url == url && media.variant
                == search.pending[0].variant
            &&& after.pending.len() == search.pending.len() - 1
            &&& after.taken == search.taken
            &&& after.candidates == search.candidates
            &&& !replaced ==> warned == warnings
            &&& replaced ==> warned.contains(words) && (warned == warnings || warned
                == warnings.push(words))
        }),
{
    let words =
        "The clean playback variant was unavailable; the original playback entry was used."@;
    assert(warnings.push(words)[warnings.len() as int] == words);
}

/// An endpoint that failed: nothing is found yet, and the endpoint is used up. A
/// failed endpoint without a mark, where the one with a mark is still to be
/// tried, is remembered and not warned of; any other failure is warned of once.
pub proof fn failed_endpoints_are_passed_over(
    search: SearchModel,
    message: Seq<char>,
    warnings: Seq<Seq<char>>,
)
    requires
        search.pending.len() > 0,
    ensures
        ({
            let (found, after, warned) = search.concluded(Err(message), warnings);
            let silent = search.has_clean && search.pending[0].variant == "play"@;
            &&& found is None
            &&& after.pending == search.pending.skip(1)
            &&& after.taken == search.taken
            &&& after.candidates == search.candidates
            &&& after.has_clean == search.has_clean
            &&& silent ==> after.clean_failed && warned == warnings
            &&& !silent ==> after.clean_failed == search.clean_failed
            &&& !silent ==> warned.contains(message)
            &&& !silent && warnings.contains(message) ==> warned == warnings
            &&& !silent && !warnings.contains(message) ==> warned == warnings.push(message)
        }),
{
    assert(warnings.push(message)[warnings.len() as int] == message);
}

/// A candidate on the endpoint with a mark is tried without the mark first, and
/// then as it is; any other candidate is tried as it is, once. A candidate that
/// media is not fetched from is an error.
pub proof fn unmarked_endpoints_are_tried_first(candidate: CandidateModel)
    ensures
        media_read(candidate.url, None) is Err <==> attempts_of(candidate) is Err,
        media_read(candidate.url, None) matches Err(error) ==> attempts_of(candidate) == Err::<
            Seq<AttemptModel>,
            ErrorModel,
        >(error),
        media_read(candidate.url, None) matches Ok(url) ==> {
            let tried = attempts_of(candidate)->Ok_0;
            &&& tried.len() > 0
            &&& tried.last().url == candidate.url
            &&& clean_play(url) matches Some(clean) ==> tried.len() == 2 && tried[0].url
                == clean.text() && tried[0].variant == "play"@ && tried[1].variant == "playwm"@
            &&& clean_play(url) is None ==> tried.len() == 1
            &&& clean_play(url) is None && candidate.playback_variant is Some ==> Some(
                tried[0].variant,
            ) == candidate.playback_variant
            &&& clean_play(url) is None && candidate.playback_variant is None ==> tried[0].variant
                == "unknown"@
        },
{
}

/// While an endpoint is left to try, it is tried before anything else.
pub proof fn pending_endpoints_come_first(search: SearchModel)
    requires
        search.pending.len() > 0,
    ensures
        search.advanced() matches Ok((StepModel::Try(url), after)) && url == search.pending[0].url
            && after == search,
{
}

/// Candidates are taken in order, and at most six of them. Those that lead
/// nowhere are passed over; the first other one is the media file itself, or its
/// endpoints are tried.
pub proof fn candidates_are_taken_in_order(search: SearchModel, next: nat)
    requires
        search.pending.len() == 0,
        search.taken <= next <= search.candidates.len(),
        next <= 6,
        forall|i: int|
            search.taken <= i < next ==> (#[trigger] search.candidates[i]).directness
                == Directness::Unknown,
    ensures
        next == 6 || next == search.candidates.len() ==> (search.advanced() matches Ok(
            (StepModel::Exhausted, _),
        )),
        next < 6 && next < search.candidates.len() && search.candidates[next as int].directness
            == Directness::CdnMedia ==> (search.advanced() matches Ok((StepModel::Found(media), _))
            && media.url == search.candidates[next as int].url && (
        match search.candidates[next as int].playback_variant {
            Some(variant) => media.variant == variant,
            None => media.variant == "direct"@,
        })),
        next < 6 && next < search.candidates.len() && search.candidates[next as int].directness
            == Directness::PlayEndpoint ==> {
            let candidate = search.candidates[next as int];
            &&& attempts_of(candidate) is Err ==> search.advanced() is Err
            &&& attempts_of(candidate) matches Ok(tried) ==> (search.advanced() matches Ok(
                (StepModel::Try(url), after),
            ) && url == tried[0].url && after.pending == tried && after.taken == next + 1
                && after.has_clean == (tried.len() == 2) && !after.clean_failed
                && after.candidates == search.candidates)
        },
    decreases next - search.taken,
{
    if search.taken < next {
        assert(search.candidates[search.taken as int].directness == Directness::Unknown);
        let after = SearchModel { taken: search.taken + 1, ..search };
        candidates_are_taken_in_order(after, next);
        assert(search.advanced() == after.advanced());
    }
}

/// What a search finds, given the outcomes of the endpoints that it tries.
pub open spec fn found_in_the_end(
    search: SearchModel,
    outcomes: Seq<Result<Seq<char>, Seq<char>>>,
) -> Option<AttemptModel>
    decreases outcomes.len(),
{
    match search.advanced() {
        Ok((StepModel::Found(media), _)) => Some(media),
        Ok((StepModel::Try(_), next)) => if outcomes.len() == 0 {
            None
        } else {
            match next.concluded(outcomes[0], Seq::empty()).0 {
                Some(media) => Some(media),
                None => found_in_the_end(
                    next.concluded(outcomes[0], Seq::empty()).1,
                    outcomes.skip(1),
                ),
            }
        },
        _ => None,
    }
}

/// The address is that of a media file among the first six candidates.
pub open spec fn is_direct_candidate(candidates: Seq<CandidateModel>, url: Seq<char>) -> bool {
    exists|i: int|
        0 <= i < candidates.len() && i < 6 && (#[trigger] candidates[i]).url == url
            && candidates[i].directness == Directness::CdnMedia
}

proof fn lemma_advanced_candidates(search: SearchModel)
    ensures
        search.advanced() matches Ok((step, after)) ==> after.candidates == search.candidates && (
        step matches StepModel::Found(media) ==> is_direct_candidate(
            search.candidates,
            media.url,
        )),
    decreases 6 - search.taken,
{
    if search.pending.len() == 0 && search.taken < 6 && search.taken < search.candidates.len() {
        let candidate = search.candidates[search.taken as int];
        if candidate.directness == Directness::Unknown {
            lemma_advanced_candidates(SearchModel { taken: search.taken + 1, ..search });
        }
    }
}

/// What a search finds is a file that an endpoint led to, or a candidate that is
/// itself a media file. So where all outcomes are media files, so is what is
/// found.
pub proof fn only_media_files_are_found(
    search: SearchModel,
    outcomes: Seq<Result<Seq<char>, Seq<char>>>,
)
    ensures
        found_in_the_end(search, outcomes) matches Some(media) ==> is_direct_candidate(
            search.candidates,
            media.url,
        ) || outcomes.contains(Ok::<Seq<char>, Seq<char>>(media.url)),
    decreases outcomes.len(),
{
    lemma_advanced_candidates(search);
    if let Ok((StepModel::Try(_), next)) = search.advanced() {
        if outcomes.len() > 0 {
            match outcomes[0] {
                Ok(url) => {
                    assert(next.concluded(outcomes[0], Seq::empty()).0->0.url == url);
                    assert(outcomes.contains(Ok::<Seq<char>, Seq<char>>(url)));
                },
                Err(_) => {
                    let after = next.concluded(outcomes[0], Seq::empty()).1;
                    only_media_files_are_found(after, outcomes.skip(1));
                    if let Some(media) = found_in_the_end(after, outcomes.skip(1)) {
                        let sought = Ok::<Seq<char>, Seq<char>>(media.url);
                        if outcomes.skip(1).contains(sought) {
                            let i = choose|i: int|
                                0 <= i < outcomes.skip(1).len() && outcomes.skip(1)[i] == sought;
                            assert(outcomes[i + 1] == sought);
                        }
                    }
                },
            }
        }
    }
}

/// The text is the URL of a media file.
pub open spec fn is_of_file(text: Seq<char>) -> bool {
    url_parsed(text) matches Some(url) && classified(url) == Directness::CdnMedia
}

/// Where the outcomes are URLs of media files, and so are the candidates that
/// count as such, what is found is the URL of a media file, however the search
/// goes.
pub proof fn what_is_found_is_a_media_file(
    search: SearchModel,
    outcomes: Seq<Result<Seq<char>, Seq<char>>>,
)
    ensures
        (forall|i: int|
            0 <= i < outcomes.len() ==> (#[trigger] outcomes[i] matches Ok(url) ==> is_of_file(
                url,
            ))) && (forall|i: int|
            0 <= i < search.candidates.len() && (#[trigger] search.candidates[i]).directness
                == Directness::CdnMedia ==> is_of_file(search.candidates[i].url)) ==> (
        found_in_the_end(search, outcomes) matches Some(media) ==> is_of_file(media.url)),
{
    only_media_files_are_found(search, outcomes);
    if let Some(media) = found_in_the_end(search, outcomes) {
        let sought = Ok::<Seq<char>, Seq<char>>(media.url);
        if outcomes.contains(sought) {
            let i = choose|i: int| 0 <= i < outcomes.len() && outcomes[i] == sought;
            assert(outcomes[i] == sought);
        } else {
            let i = choose|i: int|
                0 <= i < search.candidates.len() && i < 6 && (#[trigger] search.candidates[i]).url
                    == media.url && search.candidates[i].directness == Directness::CdnMedia;
            assert(search.candidates[i].url == media.url);
        }
    }
}

/// A URL that shows a video ends the search for it, with the video's number and
/// the document that shows it; a URL that shows none is requested, as long as
/// fewer than five redirects were followed.
pub proof fn discoveries_end_at_a_video(state: DiscoveryModel, id: Seq<char>)
    ensures
        video_in(state.current) == Some(id) && id.len() > 0 && (forall|i: int|
            0 <= i < id.len() ==> '0' <= #[trigger] id[i] <= '9') ==> (state.reached() matches Ok(
            Some(found),
        ) && found.id == id && found.url.text() == "https://www.iesdouyin.com/share/video/"@ + id
            + "/"@),
        video_in(state.current) == Some(id) && !(id.len() > 0 && (forall|i: int|
            0 <= i < id.len() ==> '0' <= #[trigger] id[i] <= '9')) ==> (state.reached() matches Err(
            error,
        ) && error.code == "invalid_video_id"@ && error.status == 400),
        video_in(state.current) is None && state.hops < 5 ==> state.reached() == Ok::<
            Option<VideoDocumentModel>,
            ErrorModel,
        >(None),
        video_in(state.current) is None && state.hops >= 5 ==> (state.reached() matches Err(error)
            && error.code == "too_many_redirects"@ && error.status == 502),
{
    reveal_strlit("https://");
    reveal_strlit("www.iesdouyin.com");
    reveal_strlit("/share/video/");
    reveal_strlit("/");
    reveal_strlit("https://www.iesdouyin.com/share/video/");
    if let Ok(Some(found)) = state.reached() {
        assert(found.url.text() =~= "https://www.iesdouyin.com/share/video/"@ + found.id + "/"@);
    }
    if video_in(state.current) == Some(id) && !(forall|i: int|
        0 <= i < id.len() ==> '0' <= #[trigger] id[i] <= '9') {
        let i = choose|i: int| 0 <= i < id.len() && !('0' <= #[trigger] id[i] <= '9');
        assert(!crate::text::is_digit(id[i]));
    }
}

/// A share link is followed by redirects with a location, one hop at a time, to
/// URLs that documents are read from; every other reply ends in an error that
/// says what was wrong with it.
pub proof fn share_redirects_are_followed(state: DiscoveryModel, reply: ReplyModel)
    ensures
        state.followed(reply) matches Ok(next) ==> {
            &&& 300 <= reply.status <= 399
            &&& next.hops == state.hops + 1
            &&& reply.location matches Some(location) && url_joined(state.current.text(), location)
                == Some(next.current)
            &&& crate::address::is_on_document_host(next.current)
        },
        300 <= reply.status <= 399 && (reply.location matches Some(location) && url_joined(
            state.current.text(),
            location,
        ) matches Some(url) && crate::address::is_on_document_host(url)) ==> state.followed(
            reply,
        ) is Ok,
        !(300 <= reply.status <= 399) ==> (state.followed(reply) matches Err(error) && error.code
            == "video_id_not_found"@ && error.status == 422),
        300 <= reply.status <= 399 && reply.location is None ==> (state.followed(
            reply,
        ) matches Err(error) && error.code == "redirect_missing_location"@ && error.status == 502),
{
}

/// A redirect leads to the URL that its location names, seen from the URL that
/// was requested, if documents are read from there.
pub proof fn document_redirects_are_checked(current: UrlModel, location: Seq<char>)
    ensures
        url_joined(current.text(), location) matches Some(url) ==> document_redirect(
            current,
            location,
        ) == crate::address::document_checked(url),
        url_joined(current.text(), location) is None ==> (document_redirect(
            current,
            location,
        ) matches Err(error) && error.code == "invalid_url"@ && error.status == 400),
{
}

/// How far links, redirects and searches are followed.
pub proof fn searches_have_limits()
    ensures
        crate::fetch::MAX_REDIRECTS == 5,
        crate::fetch::MAX_DOCUMENT_REQUESTS == 3,
        crate::fetch::MAX_MEDIA_REQUESTS == 4,
        crate::downloads::MAX_DOWNLOAD_REQUESTS == 6,
        crate::resolution::MAX_TRIED == 6,
        crate::response::MAX_REPORTED == 10,
        crate::images::MAX_IMAGES == 50,
        crate::roots::MAX_JSON_LEVELS == 65,
        crate::roots::MAX_JSON_NODES == 50000,
{
}

/// A document is taken from a success whose content is HTML, JSON or not said;
/// a redirect with a location leads on, for the same video; every other reply
/// ends in an error.
pub proof fn documents_are_taken_from_successes(state: DocumentFetchModel, reply: ReplyModel)
    ensures
        200 <= reply.status <= 299 ==> {
            let named = reply.content_type matches Some(kind) && kind.len() > 0;
            let known = reply.content_type matches Some(kind) && (is_around(
                lower(kind),
                "text/html"@,
            ) || is_around(lower(kind), "application/json"@));
            &&& state.received(reply) is Ok <==> !named || known
            &&& state.received(reply) matches Ok(next) ==> next is None
            &&& state.received(reply) matches Err(error) ==> error.code
                == "unexpected_document_type"@ && error.status == 502
        },
        300 <= reply.status <= 399 && reply.location is None ==> (state.received(
            reply,
        ) matches Err(error) && error.code == "document_redirect_failed"@),
        300 <= reply.status <= 399 && reply.location is Some ==> match document_redirect(
            state.current,
            reply.location->0,
        ) {
            Ok(url) => state.received(reply) matches Ok(Some(next)) && next.current == url
                && next.id == state.id && next.requests == state.requests + 1,
            Err(error) => state.received(reply) == Err::<Option<DocumentFetchModel>, ErrorModel>(
                error,
            ),
        },
        !(200 <= reply.status <= 399) ==> (state.received(reply) matches Err(error) && error.code
            == "document_fetch_failed"@ && error.status == 502),
{
    if let Some(kind) = reply.content_type {
        crate::text_laws::parts_stand_between_others(lower(kind), "text/html"@);
        crate::text_laws::parts_stand_between_others(lower(kind), "application/json"@);
        assert(lower(kind).len() == kind.len());
    }
}

/// A play endpoint's redirects are followed until a media file is reached, for
/// at most four requests; a media file is what is reached, and is not requested.
pub proof fn media_redirects_end_at_a_file(state: MediaRedirectModel, reply: ReplyModel)
    ensures
        state.requests < 4 && classified(state.current) == Directness::CdnMedia
            ==> state.reached() == Ok::<Option<UrlModel>, ErrorModel>(Some(state.current)),
        state.requests < 4 && classified(state.current) != Directness::CdnMedia
            ==> state.reached() == Ok::<Option<UrlModel>, ErrorModel>(None),
        state.requests >= 4 ==> (state.reached() matches Err(error) && error.code
            == "media_redirect_limit"@ && error.status == 502),
        state.reached() matches Ok(Some(url)) ==> classified(url) == Directness::CdnMedia,
        !(300 <= reply.status <= 399) ==> (state.followed(reply) matches Err(error) && error.code
            == "media_redirect_failed"@ && error.status == 502 && error.error
            == "The public play endpoint returned HTTP "@ + decimal(reply.status as nat) + "."@),
        300 <= reply.status <= 399 && reply.location is None ==> (state.followed(
            reply,
        ) matches Err(error) && error.code == "media_redirect_missing_location"@ && error.status
            == 502),
        300 <= reply.status <= 399 && reply.location is Some ==> match media_read(
            reply.location->0,
            Some(state.current),
        ) {
            Ok(url) => state.followed(reply) matches Ok(next) && next.current == url
                && next.requests == state.requests + 1,
            Err(error) => state.followed(reply) == Err::<MediaRedirectModel, ErrorModel>(error),
        },
{
    reveal_strlit("The public play endpoint returned HTTP ");
    reveal_strlit("The public play endpoint");
    reveal_strlit(" returned HTTP ");
    assert("The public play endpoint"@ + " returned HTTP "@
        =~= "The public play endpoint returned HTTP "@);
}

/// What is wrong with a reply is told with its status or with its type.
pub proof fn refused_replies_are_told_why(state: DocumentFetchModel, reply: ReplyModel)
    ensures
        !(200 <= reply.status <= 399) ==> (state.received(reply) matches Err(error) && error.error
            == "The public video document returned HTTP "@ + decimal(reply.status as nat) + "."@),
        200 <= reply.status <= 299 && state.received(reply) is Err ==> (state.received(
            reply,
        ) matches Err(error) && error.error == "Unexpected public document type: "@ + lower(
            reply.content_type->0,
        )),
        !(200 <= reply.status <= 299) ==> (detail_refused(reply) matches Some(error)
            && error.error == "The public video detail endpoint returned HTTP "@ + decimal(
            reply.status as nat,
        ) + "."@),
        200 <= reply.status <= 299 && detail_refused(reply) is Some ==> (detail_refused(
            reply,
        ) matches Some(error) && error.error == "Unexpected public video detail type: "@ + lower(
            reply.content_type->0,
        )),
{
    reveal_strlit("The public video document");
    reveal_strlit("The public video detail endpoint");
    reveal_strlit(" returned HTTP ");
    reveal_strlit("The public video document returned HTTP ");
    reveal_strlit("The public video detail endpoint returned HTTP ");
    assert("The public video document"@ + " returned HTTP "@
        =~= "The public video document returned HTTP "@);
    assert("The public video detail endpoint"@ + " returned HTTP "@
        =~= "The public video detail endpoint returned HTTP "@);
}

/// Details are taken from a success whose content is JSON or not said.
pub proof fn details_are_taken_from_successes(reply: ReplyModel)
    ensures
        ({
            let named = reply.content_type matches Some(kind) && kind.len() > 0;
            let known = reply.content_type matches Some(kind) && is_around(
                lower(kind),
                "application/json"@,
            );
            &&& detail_refused(reply) is None <==> 200 <= reply.status <= 299 && (!named || known)
            &&& !(200 <= reply.status <= 299) ==> (detail_refused(reply) matches Some(error)
                && error.code == "detail_fetch_failed"@ && error.status == 502)
            &&& 200 <= reply.status <= 299 && named && !known ==> (detail_refused(
                reply,
            ) matches Some(error) && error.code == "unexpected_detail_type"@ && error.status == 502)
        }),
{
    if let Some(kind) = reply.content_type {
        crate::text_laws::parts_stand_between_others(lower(kind), "application/json"@);
        assert(lower(kind).len() == kind.len());
    }
}

/// Details are what the text of a reply holds as JSON, unless it states a status
/// other than zero, as a number or as a text; a text without words is no reply.
pub proof fn details_are_read_unless_refused(
    body: Seq<char>,
    parsed: Result<Json, Seq<char>>,
    detail: Json,
)
    ensures
        crate::text::trimmed(body).len() == 0 ==> (detail_read(body) matches Err(error)
            && error.code == "empty_detail_response"@ && error.status == 502),
        crate::text::trimmed(body).len() > 0 ==> detail_read(body) == detail_of(json_parsed(body)),
        parsed is Err ==> (detail_of(parsed) matches Err(error) && error.code
            == "invalid_detail_response"@ && error.status == 502),
        parsed == Ok::<Json, Seq<char>>(detail) && (stated_status(detail) is None || stated_status(
            detail,
        ) == Some(0int)) ==> detail_of(parsed) == Ok::<Json, ErrorModel>(detail),
        parsed == Ok::<Json, Seq<char>>(detail) && stated_status(detail) is Some && stated_status(
            detail,
        ) != Some(0int) ==> (detail_of(parsed) matches Err(error) && error.code
            == "detail_unavailable"@ && error.status == 502),
        stated_status(detail) == (match detail {
            Json::Object(members) => match member(members@, "status_code"@) {
                Some(Json::Number(number)) => match number.integer {
                    Some(code) => Some(code as int),
                    None => None,
                },
                Some(Json::Text(text)) => crate::decode::signed_value(text.text@),
                _ => None,
            },
            _ => None,
        }),
{
}

/// A document of more than two MiB is not read where its length says so; a
/// length that is not a number says nothing.
pub proof fn long_documents_are_not_read(length: Option<Seq<char>>)
    ensures
        declares_too_much(length) <==> (length matches Some(text) && (unsigned_value(
            text,
            10,
            0xffff_ffff_ffff_ffff,
        ) matches Some(number) && number > 2097152)),
        crate::fetch::body_too_large().code == "document_too_large"@,
        crate::fetch::body_too_large().status == 502,
{
}

/// The parts of a document are joined, up to two MiB; a part that would exceed
/// them is refused.
pub proof fn documents_are_joined_from_parts(bytes: Seq<u8>, part: Seq<u8>)
    ensures
        bytes.len() + part.len() <= 2097152 ==> crate::fetch::body_with(bytes, part) == Some(
            bytes + part,
        ),
        bytes.len() + part.len() > 2097152 ==> crate::fetch::body_with(bytes, part) is None,
{
}

/// What is reported of a share: its document, its video, its title and images,
/// and the media that was found, which comes first among the candidates. At most
/// ten candidates are reported.
pub proof fn responses_carry_what_was_found(resolution: ResolutionModel)
    ensures
        ({
            let response = resolution.response();
            &&& response.document_url == Some(resolution.document.text())
            &&& response.video_id == Some(resolution.video_id)
            &&& response.title == resolution.post.title
            &&& response.images == resolution.post.images
            &&& response.candidates.len() <= 10
            &&& resolution.media matches Some(media) ==> {
                &&& response.status == "resolved"@
                &&& response.media_url == Some(media.url)
                &&& response.playback_variant == Some(media.variant)
                &&& response.candidates.len() > 0
                &&& response.candidates[0].url == media.url
                &&& response.candidates[0].directness == Some("cdn-media"@)
                &&& response.candidates[0].playback_variant == Some(media.variant)
                &&& response.candidates[0].source_kind == Some(
                    if media.variant == "play"@ {
                        "resolved-clean-cdn"@
                    } else {
                        "resolved-cdn"@
                    },
                )
                &&& response.warnings.contains("Direct CDN URLs are temporary and may expire."@)
                &&& forall|i: int|
                    1 <= i < response.candidates.len() ==> (#[trigger] response.candidates[i]).url
                        != media.url
            }
            &&& resolution.media is None ==> {
                &&& response.status == "document-only"@
                &&& response.media_url is None
                &&& response.playback_variant is None
                &&& response.warnings == resolution.warnings
                &&& resolution.candidates.len() <= 10 ==> response.candidates.len()
                    == resolution.candidates.len()
                &&& resolution.candidates.len() > 10 ==> response.candidates.len() == 10
                &&& forall|i: int|
                    0 <= i < response.candidates.len() ==> (#[trigger] response.candidates[i]).url
                        == resolution.candidates[i].url
            }
        }),
{
    let response = resolution.response();
    let words = "Direct CDN URLs are temporary and may expire."@;
    assert(resolution.warnings.push(words)[resolution.warnings.len() as int] == words);
    if let Some(media) = resolution.media {
        let keep = |candidate: CandidateModel| candidate.url != media.url;
        let rest = resolution.candidates.filter(keep);
        let all = crate::response::with_media(resolution.candidates, resolution.media);
        assert(all == seq![crate::response::resolved_candidate(media)] + rest);
        assert forall|i: int| 1 <= i < response.candidates.len() implies (
        #[trigger] response.candidates[i]).url != media.url by {
            lemma_kept_by(resolution.candidates, keep, i - 1);
            assert(all[i] == rest[i - 1]);
        }
    }
}

proof fn lemma_kept_by(
    candidates: Seq<CandidateModel>,
    keep: spec_fn(CandidateModel) -> bool,
    at: int,
)
    requires
        0 <= at < candidates.filter(keep).len(),
    ensures
        keep(candidates.filter(keep)[at]),
    decreases candidates.len(),
{
    reveal(Seq::filter);
    if candidates.len() > 0 {
        let before = candidates.drop_last().filter(keep);
        if at < before.len() {
            lemma_kept_by(candidates.drop_last(), keep, at);
        }
    }
}

/// Behind the media that was found the other candidates are reported in their
/// order, as many as fit, but for the one at the same address.
pub proof fn other_candidates_are_reported_in_order(
    resolution: ResolutionModel,
    media: AttemptModel,
    before: Seq<CandidateModel>,
    same: CandidateModel,
    after: Seq<CandidateModel>,
)
    requires
        resolution.media == Some(media),
        resolution.candidates == before + after || (same.url == media.url && resolution.candidates
            == before + seq![same] + after),
        forall|i: int| 0 <= i < before.len() ==> (#[trigger] before[i]).url != media.url,
        forall|i: int| 0 <= i < after.len() ==> (#[trigger] after[i]).url != media.url,
    ensures
        ({
            let others = before + after;
            let told = resolution.response().candidates;
            &&& others.len() < 10 ==> told.len() == others.len() + 1
            &&& others.len() >= 10 ==> told.len() == 10
            &&& forall|i: int|
                1 <= i < told.len() ==> #[trigger] told[i] == crate::ranking::reported(
                    others[i - 1],
                )
        }),
{
    let keep = |candidate: CandidateModel| candidate.url != media.url;
    let others = before + after;
    lemma_all_kept(before, keep);
    lemma_all_kept(after, keep);
    Seq::filter_distributes_over_add(before, after, keep);
    if resolution.candidates != others {
        let one = seq![same];
        assert(one.filter(keep) =~= Seq::empty()) by {
            reveal(Seq::filter);
            assert(one.drop_last() =~= Seq::empty());
            assert(one.drop_last().filter(keep) =~= Seq::empty());
        }
        Seq::filter_distributes_over_add(before, one, keep);
        Seq::filter_distributes_over_add(before + one, after, keep);
        assert(before + Seq::empty() =~= before);
    }
    assert(resolution.candidates.filter(keep) == others);
    let all = crate::response::with_media(resolution.candidates, resolution.media);
    assert(all == seq![crate::response::resolved_candidate(media)] + others);
    let told = resolution.response().candidates;
    assert forall|i: int| 1 <= i < told.len() implies #[trigger] told[i]
        == crate::ranking::reported(others[i - 1]) by {
        assert(all[i] == others[i - 1]);
    }
}

proof fn lemma_all_kept(candidates: Seq<CandidateModel>, keep: spec_fn(CandidateModel) -> bool)
    requires
        forall|i: int| 0 <= i < candidates.len() ==> keep(#[trigger] candidates[i]),
    ensures
        candidates.filter(keep) == candidates,
    decreases candidates.len(),
{
    reveal(Seq::filter);
    if candidates.len() > 0 {
        let fewer = candidates.drop_last();
        assert forall|i: int| 0 <= i < fewer.len() implies keep(#[trigger] fewer[i]) by {
            assert(candidates[i] == fewer[i]);
        }
        lemma_all_kept(fewer, keep);
        assert(keep(candidates[candidates.len() - 1]));
        assert(fewer.push(candidates.last()) =~= candidates);
    } else {
        assert(candidates.filter(keep) =~= candidates);
    }
}

/// A resolution looks for media in the page first. Where the page leads to none,
/// the details are fetched; where they hold candidates, those take the place of
/// the page's, and media is looked for among them. Nothing but the search for
/// media settles the media, and the document and the video stay.
pub proof fn details_are_fetched_where_the_page_has_no_media(
    resolution: ResolutionModel,
    media: Option<AttemptModel>,
    warnings: Seq<Seq<char>>,
    message: Seq<char>,
    detail: Json,
    candidates: Seq<CandidateModel>,
)
    ensures
        ({
            let after = resolution.searched(media, warnings);
            &&& after.media == media
            &&& after.document == resolution.document && after.video_id == resolution.video_id
            &&& after.post == resolution.post && after.candidates == resolution.candidates
            &&& media is Some ==> after.stage == Stage::Done
            &&& media is None && resolution.stage == Stage::PageSearch ==> after.stage
                == Stage::DetailFetch
            &&& media is None && resolution.stage == Stage::DetailSearch ==> after.stage
                == Stage::Done
            &&& forall|i: int|
                0 <= i < warnings.len() ==> after.warnings.contains(#[trigger] warnings[i])
            &&& resolution.warnings.is_prefix_of(after.warnings)
        }),
        ({
            let after = resolution.detail_failed(message);
            &&& after.stage == Stage::Done
            &&& after.media == resolution.media && after.post == resolution.post
            &&& after.document == resolution.document && after.video_id == resolution.video_id
            &&& after.candidates == resolution.candidates
            &&& after.warnings.contains(message)
            &&& resolution.warnings.is_prefix_of(after.warnings)
        }),
        ({
            let after = resolution.detail_found(detail, candidates);
            &&& after.media == resolution.media
            &&& after.document == resolution.document && after.video_id == resolution.video_id
            &&& resolution.warnings.is_prefix_of(after.warnings)
            &&& candidates.len() == 0 ==> after.stage == Stage::Done && after.candidates
                == resolution.candidates && after.post == resolution.post
                && after.warnings.contains(
                "The public video detail response did not include a supported media address."@,
            )
            &&& candidates.len() > 0 ==> after.stage == Stage::DetailSearch && after.candidates
                == candidates && after.post == crate::images::post_of(detail, resolution.post)
                && after.warnings.contains(
                "The share page did not include media metadata; used the public video detail response."@,
            )
        }),
{
    lemma_joined(resolution.warnings, warnings, warnings.len());
    let words = "The public video detail response did not include a supported media address."@;
    let more =
        "The share page did not include media metadata; used the public video detail response."@;
    assert(resolution.warnings.push(words)[resolution.warnings.len() as int] == words);
    assert(resolution.warnings.push(more)[resolution.warnings.len() as int] == more);
    assert(resolution.warnings.push(message)[resolution.warnings.len() as int] == message);
}

proof fn lemma_joined(target: Seq<Seq<char>>, values: Seq<Seq<char>>, count: nat)
    requires
        count <= values.len(),
    ensures
        target.is_prefix_of(crate::ranking::extended(target, values, count)),
        forall|i: int|
            0 <= i < count ==> crate::ranking::extended(target, values, count).contains(
                #[trigger] values[i],
            ),
    decreases count,
{
    if count > 0 {
        let before = crate::ranking::extended(target, values, (count - 1) as nat);
        let after = crate::ranking::extended(target, values, count);
        lemma_joined(target, values, (count - 1) as nat);
        assert forall|i: int| 0 <= i < count implies after.contains(#[trigger] values[i]) by {
            if i < count - 1 {
                let k = choose|k: int| 0 <= k < before.len() && before[k] == values[i];
                assert(after[k] == values[i]);
            } else if !before.contains(values[i]) {
                assert(after[before.len() as int] == values[i]);
            }
        }
    }
}

} // verus!
