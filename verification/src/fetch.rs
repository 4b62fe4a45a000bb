//! What is requested from the platform and what its replies mean: the search
//! for the video behind a share link, the video's document, its details, and
//! the redirects from a play endpoint to a media file. The caller sends the
//! requests and hands the replies in.
use crate::address::{
    canonical_document, canonical_video_document, classified, document_checked, extract_share_url,
    extract_video_id, is_on_document_host, is_on_media_host, is_video_id, media_classification,
    media_read, parse_media_url, share_document, validate_document_url, video_document, video_in,
    Directness,
};
use crate::collect::MAX_DOCUMENT_BYTES;
use crate::decode::{parse_signed, parse_unsigned, signed_value, unsigned_value};
use crate::errors::{agrees, bad_request, upstream, ErrorModel, ResolveError};
use crate::json::{find_member, json_parsed, json_result, member, parse_json, Json};
use crate::laws::video_documents_show_their_video;
use crate::text::{
    contains, decimal, decimal_of, holds_text, join2, join3, lower, owned, signed_decimal,
    signed_decimal_of, to_lower, trim, trimmed,
};
use crate::weburl::{optional_text, optional_url, url_joined, UrlModel, WebUrl};
use vstd::prelude::*;
use vstd::utf8::{decode_utf8, valid_utf8};

verus! {

/// The most redirects that are followed from a share link.
pub const MAX_REDIRECTS: usize = 5;

/// The most requests for one document.
pub const MAX_DOCUMENT_REQUESTS: usize = 3;

/// The most requests from a play endpoint to its media file.
pub const MAX_MEDIA_REQUESTS: usize = 4;

/// The `User-Agent` of all requests.
pub const MOBILE_USER_AGENT: &'static str =
    "Mozilla/5.0 (Linux; Android 14; Pixel 8) AppleWebKit/537.36 (KHTML, like Gecko) Chrome/150.0.0.0 Mobile Safari/537.36";

/// The languages that documents are asked for in.
pub const ACCEPTED_LANGUAGES: &'static str = "zh-CN,zh;q=0.9,en;q=0.6";

/// The types that a video's details are asked for as.
pub const DETAIL_TYPES: &'static str = "application/json,text/plain,*/*;q=0.5";

pub open spec fn types_accepted(media: bool) -> Seq<char> {
    if media {
        "video/*,*/*;q=0.5"@
    } else {
        "text/html,application/xhtml+xml,application/json;q=0.9,*/*;q=0.7"@
    }
}

/// The types that media, or else a document, is asked for as.
pub fn accepted_types(media: bool) -> (types: &'static str)
    ensures
        types@ == types_accepted(media),
{
    if media {
        "video/*,*/*;q=0.5"
    } else {
        "text/html,application/xhtml+xml,application/json;q=0.9,*/*;q=0.7"
    }
}

/// What the head of a reply says: its status, and the headers that are text.
pub struct Reply {
    pub status: u16,
    pub location: Option<String>,
    pub content_type: Option<String>,
    pub content_length: Option<String>,
}

/// What a [`Reply`] holds.
pub struct ReplyModel {
    pub status: u16,
    pub location: Option<Seq<char>>,
    pub content_type: Option<Seq<char>>,
    pub content_length: Option<Seq<char>>,
}

impl View for Reply {
    type V = ReplyModel;

    open spec fn view(&self) -> ReplyModel {
        ReplyModel {
            status: self.status,
            location: optional_text(self.location),
            content_type: optional_text(self.content_type),
            content_length: optional_text(self.content_length),
        }
    }
}

impl ReplyModel {
    pub open spec fn is_redirection(self) -> bool {
        300 <= self.status <= 399
    }

    pub open spec fn is_success(self) -> bool {
        200 <= self.status <= 299
    }

    /// The content's type in small letters, empty if it is not known.
    pub open spec fn content(self) -> Seq<char> {
        match self.content_type {
            Some(content_type) => lower(content_type),
            None => Seq::empty(),
        }
    }
}

impl Reply {
    pub fn is_redirection(&self) -> (found: bool)
        ensures
            found == self@.is_redirection(),
    {
        300 <= self.status && self.status <= 399
    }

    pub fn is_success(&self) -> (found: bool)
        ensures
            found == self@.is_success(),
    {
        200 <= self.status && self.status <= 299
    }

    /// The content's type in small letters, empty if it is not known.
    pub fn content(&self) -> (content: String)
        ensures
            content@ == self@.content(),
    {
        match &self.content_type {
            Some(content_type) => to_lower(content_type.as_str()),
            None => String::new(),
        }
    }
}

/// The message with the reply's status in it.
pub open spec fn status_message(subject: Seq<char>, status: u16) -> Seq<char> {
    subject + " returned HTTP "@ + decimal(status as nat) + "."@
}

/// The message with the reply's status in it.
pub fn message_of_status(subject: &str, status: u16) -> (message: String)
    ensures
        message@ == status_message(subject@, status),
{
    let digits = decimal_of(status as u64);
    let head = join2(subject, " returned HTTP ");
    join3(head.as_str(), digits.as_str(), ".")
}

/// A request for a document that could not be sent or answered.
pub fn document_request_failed(error: &str) -> (failure: ResolveError)
    ensures
        failure@ == upstream(
            "upstream_request_failed"@,
            "Public document request failed: "@ + error@,
        ),
{
    let message = join2("Public document request failed: ", error);
    ResolveError::upstream("upstream_request_failed", message.as_str())
}

/// A document that broke off while it was read.
pub fn document_read_failed(error: &str) -> (failure: ResolveError)
    ensures
        failure@ == upstream(
            "upstream_request_failed"@,
            "The public video document could not be read: "@ + error@,
        ),
{
    let message = join2("The public video document could not be read: ", error);
    ResolveError::upstream("upstream_request_failed", message.as_str())
}

/// A request for a video's details that could not be sent or answered.
pub fn detail_request_failed(error: &str) -> (failure: ResolveError)
    ensures
        failure@ == upstream(
            "detail_request_failed"@,
            "Public video detail request failed: "@ + error@,
        ),
{
    let message = join2("Public video detail request failed: ", error);
    ResolveError::upstream("detail_request_failed", message.as_str())
}

/// The document that a redirect from another document leads to.
pub open spec fn document_redirect(current: UrlModel, location: Seq<char>) -> Result<
    UrlModel,
    ErrorModel,
> {
    match url_joined(current.text(), location) {
        Some(url) => document_checked(url),
        None => Err(bad_request("invalid_url"@, "The share URL is not valid."@)),
    }
}

/// The document that a redirect from another document leads to.
pub fn follow_document_redirect(current: &WebUrl, location: &str) -> (next: Result<
    WebUrl,
    ResolveError,
>)
    ensures
        agrees(next, document_redirect(current@, location@)),
        next matches Ok(url) ==> is_on_document_host(url@),
{
    match current.join(location) {
        Some(url) => validate_document_url(url),
        None => Err(ResolveError::bad_request("invalid_url", "The share URL is not valid.")),
    }
}

/// A video and the document that shows it.
pub struct VideoDocument {
    id: String,
    url: WebUrl,
}

/// What a [`VideoDocument`] holds.
pub struct VideoDocumentModel {
    pub id: Seq<char>,
    pub url: UrlModel,
}

impl View for VideoDocument {
    type V = VideoDocumentModel;

    closed spec fn view(&self) -> VideoDocumentModel {
        VideoDocumentModel { id: self.id@, url: self.url@ }
    }
}

impl VideoDocument {
    #[verifier::type_invariant]
    spec fn is_canonical(self) -> bool {
        &&& is_video_id(self.id@)
        &&& self.url@ == video_document(self.id@)
    }

    /// The video's number.
    pub fn id(&self) -> (id: &str)
        ensures
            id@ == self@.id,
            is_video_id(id@),
            self@.url == video_document(id@),
    {
        proof {
            use_type_invariant(self);
        }
        self.id.as_str()
    }

    /// The document's URL.
    pub fn url(&self) -> (url: &WebUrl)
        ensures
            url@ == self@.url,
            is_video_id(self@.id),
            url@ == video_document(self@.id),
    {
        proof {
            use_type_invariant(self);
        }
        &self.url
    }
}

/// The search for the video behind a share link: the URL that was reached, and
/// the number of redirects that led there.
pub struct Discovery {
    current: WebUrl,
    hops: usize,
}

/// What a [`Discovery`] holds.
pub struct DiscoveryModel {
    pub current: UrlModel,
    pub hops: nat,
}

impl View for Discovery {
    type V = DiscoveryModel;

    closed spec fn view(&self) -> DiscoveryModel {
        DiscoveryModel { current: self.current@, hops: self.hops as nat }
    }
}

impl DiscoveryModel {
    /// What the URL shows: a video, or nothing yet, in which case the URL is to
    /// be requested.
    pub open spec fn reached(self) -> Result<Option<VideoDocumentModel>, ErrorModel> {
        match video_in(self.current) {
            Some(id) => match canonical_document(id) {
                Ok(url) => Ok(Some(VideoDocumentModel { id, url })),
                Err(error) => Err(error),
            },
            None => if self.hops >= MAX_REDIRECTS {
                Err(
                    upstream(
                        "too_many_redirects"@,
                        "The share link exceeded the redirect limit."@,
                    ),
                )
            } else {
                Ok(None)
            },
        }
    }

    /// Where the reply to a request for the URL leads.
    pub open spec fn followed(self, reply: ReplyModel) -> Result<DiscoveryModel, ErrorModel> {
        if !reply.is_redirection() {
            Err(
                ErrorModel {
                    code: "video_id_not_found"@,
                    error: "The share link did not resolve to a public video document."@,
                    status: 422,
                },
            )
        } else {
            match reply.location {
                None => Err(
                    upstream(
                        "redirect_missing_location"@,
                        "A share redirect did not include a destination."@,
                    ),
                ),
                Some(location) => match document_redirect(self.current, location) {
                    Ok(url) => Ok(DiscoveryModel { current: url, hops: self.hops + 1 }),
                    Err(error) => Err(error),
                },
            }
        }
    }
}

/// What an optional video document holds.
pub open spec fn optional_video(video: Option<VideoDocument>) -> Option<VideoDocumentModel> {
    match video {
        Some(video) => Some(video@),
        None => None,
    }
}

impl Discovery {
    #[verifier::type_invariant]
    spec fn is_allowed(self) -> bool {
        &&& is_on_document_host(self.current@)
        &&& self.hops <= MAX_REDIRECTS
    }

    /// The search from the link in a share text.
    pub fn start(share_text: &str) -> (discovery: Result<Discovery, ResolveError>)
        ensures
            match discovery {
                Ok(discovery) => share_document(share_text@) == Ok::<UrlModel, ErrorModel>(
                    discovery@.current,
                ) && discovery@.hops == 0,
                Err(error) => share_document(share_text@) == Err::<UrlModel, ErrorModel>(error@),
            },
    {
        match extract_share_url(share_text) {
            Ok(current) => Ok(Discovery { current, hops: 0 }),
            Err(error) => Err(error),
        }
    }

    /// The URL that was reached; documents are read from it.
    pub fn current(&self) -> (url: &WebUrl)
        ensures
            url@ == self@.current,
            is_on_document_host(url@),
    {
        proof {
            use_type_invariant(self);
        }
        &self.current
    }

    /// What the URL shows: a video, or nothing yet, in which case the URL is to
    /// be requested.
    pub fn next(&self) -> (video: Result<Option<VideoDocument>, ResolveError>)
        ensures
            match video {
                Ok(video) => self@.reached() == Ok::<Option<VideoDocumentModel>, ErrorModel>(
                    optional_video(video),
                ),
                Err(error) => self@.reached() == Err::<Option<VideoDocumentModel>, ErrorModel>(
                    error@,
                ),
            },
    {
        match extract_video_id(&self.current) {
            Some(id) => match canonical_video_document(id.as_str()) {
                Ok(url) => Ok(Some(VideoDocument { id, url })),
                Err(error) => Err(error),
            },
            None => if self.hops >= MAX_REDIRECTS {
                Err(
                    ResolveError::upstream(
                        "too_many_redirects",
                        "The share link exceeded the redirect limit.",
                    ),
                )
            } else {
                Ok(None)
            },
        }
    }

    /// Goes where the reply to a request for the URL leads, and nowhere if it
    /// leads nowhere.
    pub fn follow(&mut self, reply: &Reply) -> (followed: Result<(), ResolveError>)
        requires
            old(self)@.hops < MAX_REDIRECTS,
        ensures
            match followed {
                Ok(_) => old(self)@.followed(reply@) == Ok::<DiscoveryModel, ErrorModel>(
                    final(self)@,
                ),
                Err(error) => old(self)@.followed(reply@) == Err::<DiscoveryModel, ErrorModel>(
                    error@,
                ) && final(self)@ == old(self)@,
            },
    {
        if !reply.is_redirection() {
            return Err(
                ResolveError::new(
                    "video_id_not_found",
                    "The share link did not resolve to a public video document.",
                    422,
                ),
            );
        }
        match &reply.location {
            None => Err(
                ResolveError::upstream(
                    "redirect_missing_location",
                    "A share redirect did not include a destination.",
                ),
            ),
            Some(location) => match follow_document_redirect(&self.current, location.as_str()) {
                Ok(current) => {
                    let hops: usize = self.hops + 1;
                    *self = Discovery { current, hops };
                    Ok(())
                },
                Err(error) => Err(error),
            },
        }
    }
}

/// The requests for the document of a video: the video's number, the URL that
/// was reached, and the number of requests before it.
pub struct DocumentFetch {
    id: String,
    current: WebUrl,
    requests: usize,
}

/// What a [`DocumentFetch`] holds.
pub struct DocumentFetchModel {
    pub id: Seq<char>,
    pub current: UrlModel,
    pub requests: nat,
}

impl View for DocumentFetch {
    type V = DocumentFetchModel;

    closed spec fn view(&self) -> DocumentFetchModel {
        DocumentFetchModel {
            id: self.id@,
            current: self.current@,
            requests: self.requests as nat,
        }
    }
}

pub open spec fn document_redirect_failed() -> ErrorModel {
    upstream(
        "document_redirect_failed"@,
        "The public video document redirect could not be resolved."@,
    )
}

/// The content is none that a document comes as.
pub open spec fn is_unexpected_document(content: Seq<char>) -> bool {
    &&& content.len() > 0
    &&& !holds_text(content, "text/html"@)
    &&& !holds_text(content, "application/json"@)
}

impl DocumentFetchModel {
    /// What the reply to a request for the URL means: the document is in its
    /// body, which is `None`, or the requests go on.
    pub open spec fn received(self, reply: ReplyModel) -> Result<
        Option<DocumentFetchModel>,
        ErrorModel,
    > {
        if reply.is_redirection() {
            match reply.location {
                None => Err(document_redirect_failed()),
                Some(location) => match document_redirect(self.current, location) {
                    Ok(url) => Ok(
                        Some(
                            DocumentFetchModel {
                                current: url,
                                requests: self.requests + 1,
                                ..self
                            },
                        ),
                    ),
                    Err(error) => Err(error),
                },
            }
        } else if !reply.is_success() {
            Err(
                upstream(
                    "document_fetch_failed"@,
                    status_message("The public video document"@, reply.status),
                ),
            )
        } else if is_unexpected_document(reply.content()) {
            Err(
                upstream(
                    "unexpected_document_type"@,
                    "Unexpected public document type: "@ + reply.content(),
                ),
            )
        } else {
            Ok(None)
        }
    }
}

impl DocumentFetch {
    #[verifier::type_invariant]
    spec fn is_allowed(self) -> bool {
        &&& is_video_id(self.id@)
        &&& is_on_document_host(self.current@)
        &&& self.requests <= MAX_DOCUMENT_REQUESTS
    }

    /// The requests for the document of a video.
    pub fn start(document: &VideoDocument) -> (fetch: DocumentFetch)
        ensures
            fetch@ == (DocumentFetchModel {
                id: document@.id,
                current: document@.url,
                requests: 0,
            }),
    {
        let id = owned(document.id());
        let current = document.url().duplicate();
        proof {
            video_documents_show_their_video(id@);
        }
        DocumentFetch { id, current, requests: 0 }
    }

    /// The video's number.
    pub fn id(&self) -> (id: &str)
        ensures
            id@ == self@.id,
            is_video_id(id@),
    {
        proof {
            use_type_invariant(self);
        }
        self.id.as_str()
    }

    /// The URL that was reached; documents are read from it.
    pub fn current(&self) -> (url: &WebUrl)
        ensures
            url@ == self@.current,
            is_on_document_host(url@),
    {
        proof {
            use_type_invariant(self);
        }
        &self.current
    }

    /// Whether the URL may still be requested.
    pub fn next(&self) -> (allowed: Result<(), ResolveError>)
        ensures
            allowed is Ok <==> self@.requests < MAX_DOCUMENT_REQUESTS,
            allowed matches Err(error) ==> error@ == document_redirect_failed(),
    {
        if self.requests < MAX_DOCUMENT_REQUESTS {
            Ok(())
        } else {
            Err(
                ResolveError::upstream(
                    "document_redirect_failed",
                    "The public video document redirect could not be resolved.",
                ),
            )
        }
    }

    /// Takes the reply to a request for the URL: whether the document is in its
    /// body. If it is not, the URL that was reached is to be requested.
    pub fn receive(&mut self, reply: &Reply) -> (found: Result<bool, ResolveError>)
        requires
            old(self)@.requests < MAX_DOCUMENT_REQUESTS,
        ensures
            match found {
                Ok(true) => old(self)@.received(reply@) == Ok::<
                    Option<DocumentFetchModel>,
                    ErrorModel,
                >(None) && final(self)@ == old(self)@,
                Ok(false) => old(self)@.received(reply@) == Ok::<
                    Option<DocumentFetchModel>,
                    ErrorModel,
                >(Some(final(self)@)),
                Err(error) => old(self)@.received(reply@) == Err::<
                    Option<DocumentFetchModel>,
                    ErrorModel,
                >(error@) && final(self)@ == old(self)@,
            },
    {
        proof {
            use_type_invariant(&*self);
        }
        if reply.is_redirection() {
            return match &reply.location {
                None => Err(
                    ResolveError::upstream(
                        "document_redirect_failed",
                        "The public video document redirect could not be resolved.",
                    ),
                ),
                Some(location) => match follow_document_redirect(
                    &self.current,
                    location.as_str(),
                ) {
                    Ok(current) => {
                        let id = owned(self.id.as_str());
                        let requests: usize = self.requests + 1;
                        *self = DocumentFetch { id, current, requests };
                        Ok(false)
                    },
                    Err(error) => Err(error),
                },
            };
        }
        if !reply.is_success() {
            let message = message_of_status("The public video document", reply.status);
            return Err(ResolveError::upstream("document_fetch_failed", message.as_str()));
        }
        let content = reply.content();
        if !content.as_str().is_empty() && !contains(content.as_str(), "text/html") && !contains(
            content.as_str(),
            "application/json",
        ) {
            let message = join2("Unexpected public document type: ", content.as_str());
            return Err(ResolveError::upstream("unexpected_document_type", message.as_str()));
        }
        Ok(true)
    }
}

/// What `String::from_utf8_lossy` makes of bytes.
pub uninterp spec fn utf8_lossy(bytes: Seq<u8>) -> Seq<char>;

/// `String::from_utf8_lossy`: the text depends on the bytes alone, and bytes
/// that are UTF-8 give the text that they encode. What stands for other bytes is
/// not stated.
#[verifier::external_body]
fn lossy_text(bytes: &Vec<u8>) -> (text: String)
    ensures
        text@ == utf8_lossy(bytes@),
        valid_utf8(bytes@) ==> text@ == decode_utf8(bytes@),
{
    String::from_utf8_lossy(bytes).into_owned()
}

pub open spec fn body_too_large() -> ErrorModel {
    upstream("document_too_large"@, "The public video document exceeds the size limit."@)
}

/// The length that a header declares exceeds the limit.
pub open spec fn declares_too_much(length: Option<Seq<char>>) -> bool {
    match length {
        Some(length) => unsigned_value(length, 10, u64::MAX as nat) matches Some(length) && length
            > MAX_DOCUMENT_BYTES,
        None => false,
    }
}

/// The body with a part added, if it does not exceed the limit.
pub open spec fn body_with(bytes: Seq<u8>, part: Seq<u8>) -> Option<Seq<u8>> {
    if bytes.len() + part.len() <= MAX_DOCUMENT_BYTES {
        Some(bytes + part)
    } else {
        None
    }
}

/// The body of a document as it is read, within the size limit.
pub struct Body {
    bytes: Vec<u8>,
}

impl View for Body {
    type V = Seq<u8>;

    closed spec fn view(&self) -> Seq<u8> {
        self.bytes@
    }
}

impl Body {
    #[verifier::type_invariant]
    spec fn is_within_limit(self) -> bool {
        self.bytes@.len() <= MAX_DOCUMENT_BYTES
    }

    /// An empty body, unless the reply declares a length over the limit.
    pub fn start(reply: &Reply) -> (body: Result<Body, ResolveError>)
        ensures
            body is Err <==> declares_too_much(reply@.content_length),
            body matches Err(error) ==> error@ == body_too_large(),
            body matches Ok(body) ==> body@ == Seq::<u8>::empty(),
    {
        if let Some(length) = &reply.content_length {
            if let Some(length) = parse_unsigned(length.as_str(), 10, u64::MAX) {
                if length > MAX_DOCUMENT_BYTES as u64 {
                    return Err(
                        ResolveError::upstream(
                            "document_too_large",
                            "The public video document exceeds the size limit.",
                        ),
                    );
                }
            }
        }
        let bytes: Vec<u8> = Vec::new();
        assert(bytes@ =~= Seq::empty());
        Ok(Body { bytes })
    }

    /// Adds a part of the body, if it does not exceed the limit.
    pub fn push(&mut self, part: &[u8]) -> (added: Result<(), ResolveError>)
        ensures
            added is Ok <==> old(self)@.len() + part@.len() <= MAX_DOCUMENT_BYTES,
            added is Ok ==> final(self)@ == old(self)@ + part@,
            added matches Err(error) ==> error@ == body_too_large() && final(self)@ == old(
                self,
            )@,
            final(self)@.len() <= MAX_DOCUMENT_BYTES,
            body_with(old(self)@, part@) == (match added {
                Ok(_) => Some(final(self)@),
                Err(_) => None,
            }),
    {
        proof {
            use_type_invariant(&*self);
        }
        if part.len() > MAX_DOCUMENT_BYTES - self.bytes.len() {
            return Err(
                ResolveError::upstream(
                    "document_too_large",
                    "The public video document exceeds the size limit.",
                ),
            );
        }
        let mut bytes: Vec<u8> = Vec::new();
        std::mem::swap(&mut bytes, &mut self.bytes);
        let ghost before = bytes@;
        bytes.extend_from_slice(part);
        assert(bytes@ =~= before + part@);
        self.bytes = bytes;
        Ok(())
    }

    /// The text of the body.
    pub fn finish(self) -> (text: String)
        ensures
            text@ == utf8_lossy(self@),
            valid_utf8(self@) ==> text@ == decode_utf8(self@),
    {
        lossy_text(&self.bytes)
    }
}

/// Why the head of a reply with a video's details is refused.
pub open spec fn detail_refused(reply: ReplyModel) -> Option<ErrorModel> {
    if !reply.is_success() {
        Some(
            upstream(
                "detail_fetch_failed"@,
                status_message("The public video detail endpoint"@, reply.status),
            ),
        )
    } else if reply.content().len() > 0 && !holds_text(reply.content(), "application/json"@) {
        Some(
            upstream(
                "unexpected_detail_type"@,
                "Unexpected public video detail type: "@ + reply.content(),
            ),
        )
    } else {
        None
    }
}

/// Whether a reply with a video's details is read.
pub fn check_detail_reply(reply: &Reply) -> (checked: Result<(), ResolveError>)
    ensures
        match checked {
            Ok(_) => detail_refused(reply@) is None,
            Err(error) => detail_refused(reply@) == Some(error@),
        },
{
    if !reply.is_success() {
        let message = message_of_status("The public video detail endpoint", reply.status);
        return Err(ResolveError::upstream("detail_fetch_failed", message.as_str()));
    }
    let content = reply.content();
    if !content.as_str().is_empty() && !contains(content.as_str(), "application/json") {
        let message = join2("Unexpected public video detail type: ", content.as_str());
        return Err(ResolveError::upstream("unexpected_detail_type", message.as_str()));
    }
    Ok(())
}

/// The status that a video's details state, as a number or as a text.
pub open spec fn stated_status(detail: Json) -> Option<int> {
    match detail {
        Json::Object(members) => match member(members@, "status_code"@) {
            Some(Json::Number(number)) => match number.integer {
                Some(code) => Some(code as int),
                None => None,
            },
            Some(Json::Text(text)) => signed_value(text.text@),
            _ => None,
        },
        _ => None,
    }
}

/// The status that a video's details state, as a number or as a text.
pub fn detail_status(detail: &Json) -> (status: Option<i64>)
    ensures
        match status {
            Some(code) => stated_status(*detail) == Some(code as int),
            None => stated_status(*detail) is None,
        },
{
    match detail {
        Json::Object(members) => match find_member(members, "status_code") {
            Some(Json::Number(number)) => number.integer,
            Some(Json::Text(text)) => parse_signed(text.text.as_str()),
            _ => None,
        },
        _ => None,
    }
}

/// The details that a body was parsed into; a stated status other than zero is
/// an error.
pub open spec fn detail_of(parsed: Result<Json, Seq<char>>) -> Result<Json, ErrorModel> {
    match parsed {
        Err(error) => Err(
            upstream(
                "invalid_detail_response"@,
                "The public video detail response was not valid JSON: "@ + error,
            ),
        ),
        Ok(detail) => match stated_status(detail) {
            Some(code) => if code != 0 {
                Err(
                    upstream(
                        "detail_unavailable"@,
                        "The public video detail endpoint returned status code "@
                            + signed_decimal(code) + "."@,
                    ),
                )
            } else {
                Ok(detail)
            },
            None => Ok(detail),
        },
    }
}

/// The details in the body of a reply.
pub open spec fn detail_read(body: Seq<char>) -> Result<Json, ErrorModel> {
    if trimmed(body).len() == 0 {
        Err(
            upstream(
                "empty_detail_response"@,
                "The public video detail endpoint returned an empty response."@,
            ),
        )
    } else {
        detail_of(json_parsed(body))
    }
}

/// The details that a body was parsed into.
pub fn accept_detail(parsed: Result<Json, String>) -> (detail: Result<Json, ResolveError>)
    ensures
        match detail {
            Ok(detail) => detail_of(json_result(parsed)) == Ok::<Json, ErrorModel>(detail),
            Err(error) => detail_of(json_result(parsed)) == Err::<Json, ErrorModel>(error@),
        },
{
    match parsed {
        Err(error) => {
            let message = join2(
                "The public video detail response was not valid JSON: ",
                error.as_str(),
            );
            Err(ResolveError::upstream("invalid_detail_response", message.as_str()))
        },
        Ok(detail) => {
            if let Some(code) = detail_status(&detail) {
                if code != 0 {
                    let digits = signed_decimal_of(code);
                    let message = join3(
                        "The public video detail endpoint returned status code ",
                        digits.as_str(),
                        ".",
                    );
                    return Err(ResolveError::upstream("detail_unavailable", message.as_str()));
                }
            }
            Ok(detail)
        },
    }
}

/// The details in the body of a reply.
pub fn read_detail(body: &str) -> (detail: Result<Json, ResolveError>)
    ensures
        match detail {
            Ok(detail) => detail_read(body@) == Ok::<Json, ErrorModel>(detail),
            Err(error) => detail_read(body@) == Err::<Json, ErrorModel>(error@),
        },
{
    let inner = trim(body);
    if inner.as_str().is_empty() {
        return Err(
            ResolveError::upstream(
                "empty_detail_response",
                "The public video detail endpoint returned an empty response.",
            ),
        );
    }
    accept_detail(parse_json(body))
}

/// The requests from a play endpoint to its media file: the URL that was
/// reached, and the number of requests before it.
pub struct MediaRedirect {
    current: WebUrl,
    requests: usize,
}

/// What a [`MediaRedirect`] holds.
pub struct MediaRedirectModel {
    pub current: UrlModel,
    pub requests: nat,
}

impl View for MediaRedirect {
    type V = MediaRedirectModel;

    closed spec fn view(&self) -> MediaRedirectModel {
        MediaRedirectModel { current: self.current@, requests: self.requests as nat }
    }
}

impl MediaRedirectModel {
    /// The media file that was reached, or nothing yet, in which case the URL is
    /// to be requested.
    pub open spec fn reached(self) -> Result<Option<UrlModel>, ErrorModel> {
        if self.requests >= MAX_MEDIA_REQUESTS {
            Err(
                upstream(
                    "media_redirect_limit"@,
                    "The media redirect exceeded the redirect limit."@,
                ),
            )
        } else if classified(self.current) == Directness::CdnMedia {
            Ok(Some(self.current))
        } else {
            Ok(None)
        }
    }

    /// Where the reply to a request for the URL leads.
    pub open spec fn followed(self, reply: ReplyModel) -> Result<MediaRedirectModel, ErrorModel> {
        if !reply.is_redirection() {
            Err(
                upstream(
                    "media_redirect_failed"@,
                    status_message("The public play endpoint"@, reply.status),
                ),
            )
        } else {
            match reply.location {
                None => Err(
                    upstream(
                        "media_redirect_missing_location"@,
                        "The public play endpoint did not return a media location."@,
                    ),
                ),
                Some(location) => match media_read(location, Some(self.current)) {
                    Ok(url) => Ok(
                        MediaRedirectModel { current: url, requests: self.requests + 1 },
                    ),
                    Err(error) => Err(error),
                },
            }
        }
    }
}

impl MediaRedirect {
    #[verifier::type_invariant]
    spec fn is_allowed(self) -> bool {
        &&& is_on_media_host(self.current@)
        &&& self.requests <= MAX_MEDIA_REQUESTS
    }

    /// The requests from the address of a candidate.
    pub fn start(candidate_url: &str) -> (redirect: Result<MediaRedirect, ResolveError>)
        ensures
            match redirect {
                Ok(redirect) => media_read(candidate_url@, None) == Ok::<UrlModel, ErrorModel>(
                    redirect@.current,
                ) && redirect@.requests == 0,
                Err(error) => media_read(candidate_url@, None) == Err::<UrlModel, ErrorModel>(
                    error@,
                ),
            },
    {
        match parse_media_url(candidate_url, None) {
            Ok(current) => Ok(MediaRedirect { current, requests: 0 }),
            Err(error) => Err(error),
        }
    }

    /// The URL that was reached; media is fetched from it.
    pub fn current(&self) -> (url: &WebUrl)
        ensures
            url@ == self@.current,
            is_on_media_host(url@),
    {
        proof {
            use_type_invariant(self);
        }
        &self.current
    }

    /// The media file that was reached, or nothing yet, in which case the URL is
    /// to be requested.
    pub fn next(&self) -> (reached: Result<Option<WebUrl>, ResolveError>)
        ensures
            match reached {
                Ok(url) => self@.reached() == Ok::<Option<UrlModel>, ErrorModel>(
                    optional_url(url),
                ),
                Err(error) => self@.reached() == Err::<Option<UrlModel>, ErrorModel>(error@),
            },
    {
        if self.requests >= MAX_MEDIA_REQUESTS {
            return Err(
                ResolveError::upstream(
                    "media_redirect_limit",
                    "The media redirect exceeded the redirect limit.",
                ),
            );
        }
        match media_classification(&self.current) {
            Directness::CdnMedia => Ok(Some(self.current.duplicate())),
            _ => Ok(None),
        }
    }

    /// Goes where the reply to a request for the URL leads, and nowhere if it
    /// leads nowhere.
    pub fn follow(&mut self, reply: &Reply) -> (followed: Result<(), ResolveError>)
        requires
            old(self)@.requests < MAX_MEDIA_REQUESTS,
        ensures
            match followed {
                Ok(_) => old(self)@.followed(reply@) == Ok::<MediaRedirectModel, ErrorModel>(
                    final(self)@,
                ),
                Err(error) => old(self)@.followed(reply@) == Err::<MediaRedirectModel, ErrorModel>(
                    error@,
                ) && final(self)@ == old(self)@,
            },
    {
        if !reply.is_redirection() {
            let message = message_of_status("The public play endpoint", reply.status);
            return Err(ResolveError::upstream("media_redirect_failed", message.as_str()));
        }
        match &reply.location {
            None => Err(
                ResolveError::upstream(
                    "media_redirect_missing_location",
                    "The public play endpoint did not return a media location.",
                ),
            ),
            Some(location) => match parse_media_url(location.as_str(), Some(&self.current)) {
                Ok(current) => {
                    let requests: usize = self.requests + 1;
                    *self = MediaRedirect { current, requests };
                    Ok(())
                },
                Err(error) => Err(error),
            },
        }
    }
}

} // verus!
