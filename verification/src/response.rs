//! The response that a share link resolves to.
use crate::address::{is_on_document_host, is_video_id, Directness};
use crate::collect::{page_warnings, warn_of_page};
use crate::collection_laws::{are_images, notes_do_not_repeat, posts_are_sound};
use crate::errors::ResolveError;
use crate::fetch::DocumentFetch;
use crate::images::{
    collect_title_and_images, images_model, post_of, ImageModel, Post, PostModel, ShareImage,
};
use crate::json::Json;
use crate::markup::{page_payloads, payload_model, payloads_model, Page};
use crate::patterns::texts_model;
use crate::ranking::{
    candidates_model, distinct_urls, extend_unique, extended, reported, Candidate, CandidateModel,
    MediaModel, ShareMediaCandidate,
};
use crate::readings::readings_only_weigh_pages;
use crate::resolution::{
    optional_media, push_warning, warned, warnings_do_not_repeat, AttemptModel, FoundMedia,
};
use crate::text::{owned, same};
use crate::weburl::{optional_text, UrlModel, WebUrl};
use crate::work::are_numbered;
use vstd::prelude::*;

verus! {

/// The most candidates that are reported.
pub const MAX_REPORTED: usize = 10;

/// The title and the images of the first `count` documents of a page.
pub open spec fn page_post(payloads: Seq<(Seq<char>, Json)>, count: nat) -> PostModel
    decreases count,
{
    if count == 0 {
        PostModel { title: None, images: Seq::empty() }
    } else {
        post_of(payloads[count - 1].1, page_post(payloads, (count - 1) as nat))
    }
}

/// The images of documents are numbered in order and have distinct addresses
/// that images are fetched from.
pub proof fn page_images_are_sound(payloads: Seq<(Seq<char>, Json)>, count: nat)
    ensures
        are_images(page_post(payloads, count).images),
    decreases count,
{
    if count > 0 {
        page_images_are_sound(payloads, (count - 1) as nat);
        posts_are_sound(payloads[count - 1].1, page_post(payloads, (count - 1) as nat));
    }
}

/// The title and the images of a page.
pub fn collect_page_post(page: &Page) -> (post: Post)
    ensures
        post@ == page_post(page_payloads(page@.html), page_payloads(page@.html).len()),
        are_images(post@.images),
{
    let payloads = page.payloads();
    let mut post = Post::new();
    let mut at: usize = 0;
    while at < payloads.len()
        invariant
            at <= payloads@.len(),
            post@ == page_post(payloads_model(payloads@), at as nat),
        decreases payloads@.len() - at,
    {
        assert(payloads_model(payloads@)[at as int] == payload_model(payloads@[at as int]));
        collect_title_and_images(&payloads[at].value, &mut post);
        at = at + 1;
    }
    proof {
        assert(payloads_model(payloads@).len() == payloads@.len());
        readings_only_weigh_pages(page@.html, page@.payloads, None);
        page_images_are_sound(page@.payloads, page@.payloads.len());
    }
    post
}

/// The warning that a video's details name no media.
pub open spec fn detail_without_media() -> Seq<char> {
    "The public video detail response did not include a supported media address."@
}

/// The warning that a video's details took the place of its page.
pub open spec fn detail_used() -> Seq<char> {
    "The share page did not include media metadata; used the public video detail response."@
}

/// What a share link resolves to.
#[derive(Debug)]
pub struct ShareResolveResponse {
    pub status: String,
    pub document_url: Option<String>,
    pub video_id: Option<String>,
    pub title: Option<String>,
    pub images: Vec<ShareImage>,
    pub media_url: Option<String>,
    pub playback_variant: Option<String>,
    pub candidates: Vec<ShareMediaCandidate>,
    pub warnings: Vec<String>,
}

pub open spec fn media_models(candidates: Seq<ShareMediaCandidate>) -> Seq<MediaModel> {
    candidates.map_values(|candidate: ShareMediaCandidate| candidate@)
}

/// What a [`ShareResolveResponse`] holds.
#[verifier::ext_equal]
pub struct ResponseModel {
    pub status: Seq<char>,
    pub document_url: Option<Seq<char>>,
    pub video_id: Option<Seq<char>>,
    pub title: Option<Seq<char>>,
    pub images: Seq<ImageModel>,
    pub media_url: Option<Seq<char>>,
    pub playback_variant: Option<Seq<char>>,
    pub candidates: Seq<MediaModel>,
    pub warnings: Seq<Seq<char>>,
}

impl View for ShareResolveResponse {
    type V = ResponseModel;

    open spec fn view(&self) -> ResponseModel {
        ResponseModel {
            status: self.status@,
            document_url: optional_text(self.document_url),
            video_id: optional_text(self.video_id),
            title: optional_text(self.title),
            images: images_model(self.images@),
            media_url: optional_text(self.media_url),
            playback_variant: optional_text(self.playback_variant),
            candidates: media_models(self.candidates@),
            warnings: texts_model(self.warnings@),
        }
    }
}

/// The candidate for the media file that was found.
pub open spec fn resolved_candidate(media: AttemptModel) -> CandidateModel {
    CandidateModel {
        url: media.url,
        source_path: "media redirect location"@,
        source_kind: if media.variant == "play"@ {
            "resolved-clean-cdn"@
        } else {
            "resolved-cdn"@
        },
        directness: Directness::CdnMedia,
        playback_variant: Some(media.variant),
        width: None,
        height: None,
        bitrate: None,
        codec: None,
        format: None,
        score: 13000,
        evidence: seq!["public HTTP redirect"@, "cdn-media"@],
        sources: seq!["media-redirect"@],
        order: 0,
        area: 0,
    }
}

/// The candidates with the media file that was found at their head.
pub open spec fn with_media(candidates: Seq<CandidateModel>, media: Option<AttemptModel>) -> Seq<
    CandidateModel,
> {
    match media {
        Some(media) => seq![resolved_candidate(media)] + candidates.filter(
            |candidate: CandidateModel| candidate.url != media.url,
        ),
        None => candidates,
    }
}

/// The candidates as they are reported, as many as are.
pub open spec fn listed(candidates: Seq<CandidateModel>) -> Seq<MediaModel> {
    let count = if candidates.len() < MAX_REPORTED {
        candidates.len()
    } else {
        MAX_REPORTED as nat
    };
    candidates.take(count as int).map_values(|candidate: CandidateModel| reported(candidate))
}

/// The warning that a media file does not stay where it is.
pub open spec fn temporary_media() -> Seq<char> {
    "Direct CDN URLs are temporary and may expire."@
}

/// What a share link resolves to, given what was found.
pub open spec fn response_of(
    document: UrlModel,
    video_id: Seq<char>,
    post: PostModel,
    candidates: Seq<CandidateModel>,
    media: Option<AttemptModel>,
    warnings: Seq<Seq<char>>,
) -> ResponseModel {
    ResponseModel {
        status: if media is Some {
            "resolved"@
        } else {
            "document-only"@
        },
        document_url: Some(document.text()),
        video_id: Some(video_id),
        title: post.title,
        images: post.images,
        media_url: match media {
            Some(media) => Some(media.url),
            None => None,
        },
        playback_variant: match media {
            Some(media) => Some(media.variant),
            None => None,
        },
        candidates: listed(with_media(candidates, media)),
        warnings: if media is Some {
            warned(warnings, temporary_media())
        } else {
            warnings
        },
    }
}

fn make_resolved(media: &FoundMedia) -> (candidate: Candidate)
    ensures
        candidate@ == resolved_candidate(media@),
{
    let mut evidence: Vec<String> = Vec::new();
    evidence.push(owned("public HTTP redirect"));
    evidence.push(owned("cdn-media"));
    let mut sources: Vec<String> = Vec::new();
    sources.push(owned("media-redirect"));
    assert(texts_model(evidence@) =~= seq!["public HTTP redirect"@, "cdn-media"@]);
    assert(texts_model(sources@) =~= seq!["media-redirect"@]);
    let source_kind = if same(media.variant.as_str(), "play") {
        owned("resolved-clean-cdn")
    } else {
        owned("resolved-cdn")
    };
    Candidate {
        url: media.url.clone(),
        source_path: owned("media redirect location"),
        source_kind,
        directness: Directness::CdnMedia,
        playback_variant: Some(media.variant.clone()),
        width: None,
        height: None,
        bitrate: None,
        codec: None,
        format: None,
        score: 13000,
        evidence,
        sources,
        order: 0,
        area: 0,
    }
}

/// The candidates with the media file that was found at their head.
fn put_media(candidates: Vec<Candidate>, media: &FoundMedia) -> (after: Vec<Candidate>)
    ensures
        candidates_model(after@) == with_media(candidates_model(candidates@), Some(media@)),
{
    let ghost model = candidates_model(candidates@);
    let ghost keep = |candidate: CandidateModel| candidate.url != media@.url;
    let mut after: Vec<Candidate> = Vec::new();
    after.push(make_resolved(media));
    proof {
        reveal(Seq::filter);
        assert(model.take(0).filter(keep) =~= Seq::empty());
        assert(candidates_model(after@) =~= seq![resolved_candidate(media@)]);
    }
    for candidate in iter: candidates
        invariant
            iter.seq() == candidates@,
            model == candidates_model(candidates@),
            keep == (|candidate: CandidateModel| candidate.url != media@.url),
            candidates_model(after@) == seq![resolved_candidate(media@)] + model.take(
                iter.index(),
            ).filter(keep),
    {
        let ghost kept = candidates_model(after@);
        let ghost found = candidate@;
        proof {
            assert(found == model[iter.index()]);
            assert(model.take(iter.index() + 1).drop_last() =~= model.take(iter.index()));
            reveal(Seq::filter);
        }
        if !same(candidate.url.as_str(), media.url.as_str()) {
            after.push(candidate);
            assert(candidates_model(after@) =~= kept.push(found));
        }
        assert(candidates_model(after@) =~= seq![resolved_candidate(media@)] + model.take(
            iter.index() + 1,
        ).filter(keep));
    }
    assert(model.take(model.len() as int) =~= model);
    after
}

fn list_candidates(candidates: &Vec<Candidate>) -> (media: Vec<ShareMediaCandidate>)
    ensures
        media_models(media@) == listed(candidates_model(candidates@)),
{
    let mut media: Vec<ShareMediaCandidate> = Vec::new();
    let mut at: usize = 0;
    let ghost model = candidates_model(candidates@);
    while at < candidates.len() && at < MAX_REPORTED
        invariant
            at <= candidates@.len(),
            at <= MAX_REPORTED,
            model == candidates_model(candidates@),
            media@.len() == at,
            forall|i: int| 0 <= i < at ==> (#[trigger] media@[i])@ == reported(model[i]),
        decreases candidates@.len() - at,
    {
        assert(model[at as int] == candidates@[at as int]@);
        media.push(candidates[at].public());
        at = at + 1;
    }
    assert(media_models(media@) =~= listed(model));
    media
}

/// How far a resolution has come.
#[derive(Debug, Clone, Copy, PartialEq, Eq, Structural)]
pub enum Stage {
    /// A media file is searched among the candidates of the page.
    PageSearch,
    /// The page led to none; the video's details are fetched.
    DetailFetch,
    /// A media file is searched among the candidates of the details.
    DetailSearch,
    /// What was found is what is reported.
    Done,
}

/// The number of a stage in their order.
pub open spec fn stage_number(stage: Stage) -> nat {
    match stage {
        Stage::PageSearch => 0,
        Stage::DetailFetch => 1,
        Stage::DetailSearch => 2,
        Stage::Done => 3,
    }
}

/// What has been found of a share link's video.
pub struct Resolution {
    stage: Stage,
    document: WebUrl,
    video_id: String,
    post: Post,
    candidates: Vec<Candidate>,
    media: Option<FoundMedia>,
    warnings: Vec<String>,
}

/// What a [`Resolution`] holds.
#[verifier::ext_equal]
pub struct ResolutionModel {
    pub stage: Stage,
    pub document: UrlModel,
    pub video_id: Seq<char>,
    pub post: PostModel,
    pub candidates: Seq<CandidateModel>,
    pub media: Option<AttemptModel>,
    pub warnings: Seq<Seq<char>>,
}

impl View for Resolution {
    type V = ResolutionModel;

    closed spec fn view(&self) -> ResolutionModel {
        ResolutionModel {
            stage: self.stage,
            document: self.document@,
            video_id: self.video_id@,
            post: self.post@,
            candidates: candidates_model(self.candidates@),
            media: optional_media(self.media),
            warnings: texts_model(self.warnings@),
        }
    }
}

impl ResolutionModel {
    /// A search is due.
    pub open spec fn is_searching(self) -> bool {
        self.stage == Stage::PageSearch || self.stage == Stage::DetailSearch
    }

    /// After a search: a media file that was found ends the resolution; without
    /// one, the page is followed by the details, and the details by the end.
    pub open spec fn searched(
        self,
        media: Option<AttemptModel>,
        warnings: Seq<Seq<char>>,
    ) -> ResolutionModel {
        ResolutionModel {
            stage: if media is None && self.stage == Stage::PageSearch {
                Stage::DetailFetch
            } else {
                Stage::Done
            },
            media,
            warnings: extended(self.warnings, warnings, warnings.len()),
            ..self
        }
    }

    /// After details that could not be had: the error is no more than a warning.
    pub open spec fn detail_failed(self, message: Seq<char>) -> ResolutionModel {
        ResolutionModel {
            stage: Stage::Done,
            warnings: warned(self.warnings, message),
            ..self
        }
    }

    /// After the details: their candidates take the place of those of the page
    /// if there are any, and the title and the images are then added.
    pub open spec fn detail_found(
        self,
        detail: Json,
        candidates: Seq<CandidateModel>,
    ) -> ResolutionModel {
        if candidates.len() == 0 {
            ResolutionModel {
                stage: Stage::Done,
                warnings: warned(self.warnings, detail_without_media()),
                ..self
            }
        } else {
            ResolutionModel {
                stage: Stage::DetailSearch,
                candidates,
                post: post_of(detail, self.post),
                warnings: warned(self.warnings, detail_used()),
                ..self
            }
        }
    }

    /// What is reported in the end.
    pub open spec fn response(self) -> ResponseModel {
        response_of(
            self.document,
            self.video_id,
            self.post,
            self.candidates,
            self.media,
            self.warnings,
        )
    }
}

impl ResolutionModel {
    /// The video has a number, its document is on a host that documents are read
    /// from, the images are numbered in order and have distinct addresses that
    /// images are fetched from, and no warning is given twice.
    pub open spec fn is_sound(self) -> bool {
        &&& is_video_id(self.video_id)
        &&& is_on_document_host(self.document)
        &&& are_images(self.post.images)
        &&& self.warnings.no_duplicates()
    }
}

impl Resolution {
    /// What a video's page gave, before a media file is searched: the URL that
    /// its document was read from, the page itself, and its candidates by rank.
    pub fn start(fetch: &DocumentFetch, page: &Page, candidates: Vec<Candidate>) -> (resolution:
        Resolution)
        ensures
            resolution@ == (ResolutionModel {
                stage: Stage::PageSearch,
                document: fetch@.current,
                video_id: fetch@.id,
                post: page_post(page_payloads(page@.html), page_payloads(page@.html).len()),
                candidates: candidates_model(candidates@),
                media: None,
                warnings: page_warnings(page_payloads(page@.html).len()),
            }),
            resolution@.is_sound(),
    {
        let payloads = page.payloads();
        assert(payloads_model(payloads@).len() == payloads@.len());
        Resolution {
            stage: Stage::PageSearch,
            document: fetch.current().duplicate(),
            video_id: owned(fetch.id()),
            post: collect_page_post(page),
            candidates,
            media: None,
            warnings: warn_of_page(payloads.len()),
        }
    }

    pub fn stage(&self) -> (stage: Stage)
        ensures
            stage == self@.stage,
    {
        self.stage
    }

    /// The candidates among which a media file is searched.
    pub fn candidates(&self) -> (candidates: &Vec<Candidate>)
        ensures
            candidates_model(candidates@) == self@.candidates,
    {
        &self.candidates
    }

    /// Takes the outcome of a search, and what it warned of.
    pub fn searched(&mut self, media: Option<FoundMedia>, warnings: &Vec<String>)
        requires
            old(self)@.is_searching(),
        ensures
            final(self)@ == old(self)@.searched(optional_media(media), texts_model(warnings@)),
            old(self)@.is_sound() ==> final(self)@.is_sound(),
    {
        let ghost before = self@;
        self.stage = match (&media, self.stage) {
            (None, Stage::PageSearch) => Stage::DetailFetch,
            _ => Stage::Done,
        };
        self.media = media;
        extend_unique(&mut self.warnings, warnings);
        proof {
            assert(texts_model(warnings@).len() == warnings@.len());
            if before.is_sound() {
                notes_do_not_repeat(before.warnings, texts_model(warnings@), warnings@.len());
            }
        }
    }

    /// Takes the error with which the details could not be had.
    pub fn detail_failed(&mut self, error: &ResolveError)
        requires
            old(self)@.stage == Stage::DetailFetch,
        ensures
            final(self)@ == old(self)@.detail_failed(error@.error),
            old(self)@.is_sound() ==> final(self)@.is_sound(),
    {
        proof {
            if self@.is_sound() {
                warnings_do_not_repeat(self@.warnings, error@.error);
            }
        }
        self.stage = Stage::Done;
        push_warning(&mut self.warnings, error.error.as_str());
    }

    /// Takes the details and the candidates in them, by rank.
    pub fn detail_found(&mut self, detail: &Json, candidates: Vec<Candidate>)
        requires
            old(self)@.stage == Stage::DetailFetch,
        ensures
            final(self)@ == old(self)@.detail_found(*detail, candidates_model(candidates@)),
            old(self)@.is_sound() ==> final(self)@.is_sound(),
    {
        proof {
            if self@.is_sound() {
                warnings_do_not_repeat(self@.warnings, detail_without_media());
                warnings_do_not_repeat(self@.warnings, detail_used());
                posts_are_sound(*detail, self@.post);
            }
        }
        assert(candidates_model(candidates@).len() == candidates@.len());
        if candidates.len() == 0 {
            self.stage = Stage::Done;
            push_warning(
                &mut self.warnings,
                "The public video detail response did not include a supported media address.",
            );
        } else {
            self.stage = Stage::DetailSearch;
            self.candidates = candidates;
            collect_title_and_images(detail, &mut self.post);
            push_warning(
                &mut self.warnings,
                "The share page did not include media metadata; used the public video detail response.",
            );
        }
    }

    /// What is reported.
    pub fn finish(self) -> (response: ShareResolveResponse)
        requires
            self@.stage == Stage::Done,
        ensures
            response@ == self@.response(),
            self@.is_sound() ==> (response@.video_id matches Some(id) && is_video_id(id)),
            self@.is_sound() ==> are_images(response@.images) && are_numbered(response@.images),
            self@.is_sound() ==> response@.warnings.no_duplicates(),
    {
        proof {
            if self@.is_sound() {
                warnings_do_not_repeat(self@.warnings, temporary_media());
            }
        }
        let mut warnings = self.warnings;
        let mut candidates = self.candidates;
        let mut status = owned("document-only");
        let mut media_url: Option<String> = None;
        let mut playback_variant: Option<String> = None;
        if let Some(media) = self.media {
            candidates = put_media(candidates, &media);
            push_warning(&mut warnings, "Direct CDN URLs are temporary and may expire.");
            status = owned("resolved");
            media_url = Some(media.url);
            playback_variant = Some(media.variant);
        }
        ShareResolveResponse {
            status,
            document_url: Some(self.document.to_text()),
            video_id: Some(self.video_id),
            title: self.post.title,
            images: self.post.images,
            media_url,
            playback_variant,
            candidates: list_candidates(&candidates),
            warnings,
        }
    }
}

/// Whatever is found on the way, a resolution reports the number of its video,
/// which is digits, the document that was read, on a host that documents are
/// read from, and images that are numbered in order, and gives no warning twice.
pub proof fn responses_are_sound(
    state: ResolutionModel,
    media: Option<AttemptModel>,
    warnings: Seq<Seq<char>>,
    message: Seq<char>,
    detail: Json,
    candidates: Seq<CandidateModel>,
)
    requires
        state.is_sound(),
    ensures
        state.searched(media, warnings).is_sound(),
        state.detail_failed(message).is_sound(),
        state.detail_found(detail, candidates).is_sound(),
        state.searched(media, warnings).video_id == state.video_id,
        state.detail_failed(message).video_id == state.video_id,
        state.detail_found(detail, candidates).video_id == state.video_id,
        state.response().video_id == Some(state.video_id),
        state.response().document_url == Some(state.document.text()),
        are_images(state.response().images),
        are_numbered(state.response().images),
        state.response().warnings.no_duplicates(),
{
    posts_are_sound(detail, state.post);
    notes_do_not_repeat(state.warnings, warnings, warnings.len());
    warnings_do_not_repeat(state.warnings, message);
    warnings_do_not_repeat(state.warnings, detail_without_media());
    warnings_do_not_repeat(state.warnings, detail_used());
    warnings_do_not_repeat(state.warnings, temporary_media());
}

/// A resolution goes on from stage to stage and back to none, so the details are
/// fetched at most once, and only where the page led to no media file; they
/// never take away a media file that was found.
pub proof fn resolutions_come_to_an_end(
    state: ResolutionModel,
    media: Option<AttemptModel>,
    warnings: Seq<Seq<char>>,
    message: Seq<char>,
    detail: Json,
    candidates: Seq<CandidateModel>,
)
    ensures
        state.is_searching() ==> stage_number(state.stage) < stage_number(
            state.searched(media, warnings).stage,
        ),
        state.is_searching() && media is Some ==> state.searched(media, warnings).stage
            == Stage::Done,
        state.is_searching() && state.searched(media, warnings).stage == Stage::DetailFetch
            ==> media is None && state.stage == Stage::PageSearch,
        state.stage == Stage::DetailFetch ==> {
            &&& stage_number(state.stage) < stage_number(state.detail_failed(message).stage)
            &&& stage_number(state.stage) < stage_number(
                state.detail_found(detail, candidates).stage,
            )
            &&& state.detail_failed(message).media == state.media
            &&& state.detail_found(detail, candidates).media == state.media
        },
{
}

/// A filter leaves candidates that it keeps, and distinct addresses distinct.
proof fn lemma_filter(candidates: Seq<CandidateModel>, keep: spec_fn(CandidateModel) -> bool)
    ensures
        forall|i: int|
            0 <= i < candidates.filter(keep).len() ==> keep(#[trigger] candidates.filter(keep)[i])
                && candidates.contains(candidates.filter(keep)[i]),
        distinct_urls(candidates) ==> distinct_urls(candidates.filter(keep)),
    decreases candidates.len(),
{
    reveal(Seq::filter);
    if candidates.len() > 0 {
        let fewer = candidates.drop_last();
        lemma_filter(fewer, keep);
        assert forall|i: int| 0 <= i < candidates.filter(keep).len() implies keep(
            #[trigger] candidates.filter(keep)[i],
        ) && candidates.contains(candidates.filter(keep)[i]) by {
            if i < fewer.filter(keep).len() {
                assert(fewer.contains(fewer.filter(keep)[i]));
                let k = choose|k: int| 0 <= k < fewer.len() && fewer[k] == fewer.filter(keep)[i];
                assert(candidates[k] == fewer[k]);
            } else {
                assert(candidates[candidates.len() - 1] == candidates.last());
            }
        }
        if distinct_urls(candidates) {
            assert(distinct_urls(fewer)) by {
                assert forall|i: int, j: int|
                    0 <= i < j < fewer.len() implies #[trigger] fewer[i].url
                    != #[trigger] fewer[j].url by {
                    assert(candidates[i].url != candidates[j].url);
                }
            }
            let after = candidates.filter(keep);
            assert forall|i: int, j: int| 0 <= i < j < after.len() implies #[trigger] after[i].url
                != #[trigger] after[j].url by {
                if j < fewer.filter(keep).len() {
                    assert(fewer.filter(keep)[i].url != fewer.filter(keep)[j].url);
                } else {
                    assert(fewer.contains(fewer.filter(keep)[i]));
                    let k = choose|k: int|
                        0 <= k < fewer.len() && fewer[k] == fewer.filter(keep)[i];
                    assert(candidates[k].url != candidates[candidates.len() - 1].url);
                }
            }
        }
    }
}

/// A response reports a limited number of candidates. With a media file found,
/// it is the first of them, no other has its address, and the warnings say that
/// it is temporary. Candidates with distinct addresses are reported with
/// distinct addresses.
pub proof fn media_is_reported_first(
    document: UrlModel,
    video_id: Seq<char>,
    post: PostModel,
    candidates: Seq<CandidateModel>,
    media: Option<AttemptModel>,
    warnings: Seq<Seq<char>>,
)
    ensures
        ({
            let response = response_of(document, video_id, post, candidates, media, warnings);
            &&& response.candidates.len() <= MAX_REPORTED
            &&& media matches Some(media) ==> {
                &&& response.status == "resolved"@
                &&& response.media_url == Some(media.url)
                &&& response.candidates.len() > 0
                &&& response.candidates[0].url == media.url
                &&& forall|i: int|
                    1 <= i < response.candidates.len() ==> #[trigger] response.candidates[i].url
                        != media.url
                &&& response.warnings.contains(temporary_media())
            }
            &&& media is None ==> response.status == "document-only"@ && response.media_url is None
            &&& distinct_urls(candidates) ==> forall|i: int, j: int|
                0 <= i < j < response.candidates.len() ==> #[trigger] response.candidates[i].url
                    != #[trigger] response.candidates[j].url
        }),
{
    let response = response_of(document, video_id, post, candidates, media, warnings);
    let whole = with_media(candidates, media);
    assert forall|i: int| 0 <= i < response.candidates.len() implies #[trigger] response.candidates[i].url
        == whole[i].url by {}
    if let Some(media) = media {
        let keep = |candidate: CandidateModel| candidate.url != media.url;
        lemma_filter(candidates, keep);
        if !warnings.contains(temporary_media()) {
            assert(response.warnings[warnings.len() as int] == temporary_media());
        }
    }
}

} // verus!
