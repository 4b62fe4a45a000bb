//! Downloads: the redirects to a video or an image, and how much of it is
//! taken. The caller sends the requests and saves the bytes.
use crate::address::{
    image_download, is_on_image_host, is_on_media_host, media_read, on_image_host,
    validate_download_url, validate_image_download_url,
};
use crate::errors::ErrorModel;
use crate::fetch::{Reply, ReplyModel};
use crate::tasks::{TaskError, TaskErrorModel};
use crate::text::{owned, starts_with};
use crate::weburl::{url_joined, UrlModel, WebUrl};
use vstd::prelude::*;

verus! {

/// The most requests for one download.
pub const MAX_DOWNLOAD_REQUESTS: usize = 6;

/// The `Referer` of downloads.
pub const DOWNLOAD_REFERER: &'static str = "https://www.douyin.com/";

/// What is downloaded.
#[derive(Debug, Clone, Copy, PartialEq, Eq, Structural)]
pub enum Kind {
    Media,
    Image,
}

/// The types that a download is asked for as.
pub fn download_types(kind: Kind) -> (types: &'static str)
    ensures
        types@ == (match kind {
            Kind::Media => "video/*,application/octet-stream;q=0.9,*/*;q=0.5"@,
            Kind::Image => "image/avif,image/webp,image/apng,image/*,*/*;q=0.5"@,
        }),
{
    match kind {
        Kind::Media => "video/*,application/octet-stream;q=0.9,*/*;q=0.5",
        Kind::Image => "image/avif,image/webp,image/apng,image/*,*/*;q=0.5",
    }
}

/// The URL that the text reads as, if it may be downloaded from.
pub open spec fn download_read(kind: Kind, text: Seq<char>) -> Result<UrlModel, ErrorModel> {
    match kind {
        Kind::Media => media_read(text, None),
        Kind::Image => image_download(text),
    }
}

/// The URL that the text reads as, if it may be downloaded from.
pub fn read_download_url(kind: Kind, text: &str) -> (url: Result<WebUrl, TaskError>)
    ensures
        match url {
            Ok(url) => download_read(kind, text@) == Ok::<UrlModel, ErrorModel>(url@),
            Err(error) => download_read(kind, text@) matches Err(model) && error@
                == TaskErrorModel::Resolve(model),
        },
        url matches Ok(url) ==> is_download_target(kind, url@),
{
    let checked = match kind {
        Kind::Media => validate_download_url(text),
        Kind::Image => validate_image_download_url(text),
    };
    match checked {
        Ok(url) => Ok(url),
        Err(error) => Err(TaskError::Resolve(error)),
    }
}

pub open spec fn too_many_redirects(kind: Kind) -> Seq<char> {
    match kind {
        Kind::Media => "媒体重定向次数过多。"@,
        Kind::Image => "图片重定向次数过多。"@,
    }
}

pub open spec fn missing_location(kind: Kind) -> Seq<char> {
    match kind {
        Kind::Media => "媒体重定向缺少地址。"@,
        Kind::Image => "图片重定向缺少地址。"@,
    }
}

pub open spec fn invalid_location(kind: Kind) -> Seq<char> {
    match kind {
        Kind::Media => "媒体重定向地址无效。"@,
        Kind::Image => "图片重定向地址无效。"@,
    }
}

/// The content is a page or a document, and no media.
pub open spec fn is_page(content: Seq<char>) -> bool {
    "text/"@.is_prefix_of(content) || "application/json"@.is_prefix_of(content)
}

/// The requests for a download: the URL that was reached, and the number of
/// requests before it.
pub struct DownloadFetch {
    kind: Kind,
    current: WebUrl,
    requests: usize,
}

/// What a [`DownloadFetch`] holds.
pub struct DownloadModel {
    pub kind: Kind,
    pub current: UrlModel,
    pub requests: nat,
}

impl View for DownloadFetch {
    type V = DownloadModel;

    closed spec fn view(&self) -> DownloadModel {
        DownloadModel {
            kind: self.kind,
            current: self.current@,
            requests: self.requests as nat,
        }
    }
}

/// The URL is on a host that such downloads are fetched from.
pub open spec fn is_download_target(kind: Kind, url: UrlModel) -> bool {
    match kind {
        Kind::Media => is_on_media_host(url),
        Kind::Image => is_on_image_host(url),
    }
}

impl DownloadModel {
    /// What the reply to a request for the URL means: the download is in its
    /// body, which is `None`, or the requests go on.
    pub open spec fn received(self, reply: ReplyModel) -> Result<
        Option<DownloadModel>,
        TaskErrorModel,
    > {
        if reply.is_redirection() {
            match reply.location {
                None => Err(TaskErrorModel::Internal(missing_location(self.kind))),
                Some(location) => match url_joined(self.current.text(), location) {
                    None => Err(TaskErrorModel::Internal(invalid_location(self.kind))),
                    Some(next) => match download_read(self.kind, next.text()) {
                        Err(error) => Err(TaskErrorModel::Resolve(error)),
                        Ok(url) => Ok(
                            Some(
                                DownloadModel {
                                    current: url,
                                    requests: self.requests + 1,
                                    ..self
                                },
                            ),
                        ),
                    },
                },
            }
        } else if !reply.is_success() {
            Err(TaskErrorModel::DownloadHttp(reply.status))
        } else if is_page(reply.content()) {
            Err(TaskErrorModel::InvalidContent)
        } else {
            Ok(None)
        }
    }
}

impl DownloadFetch {
    #[verifier::type_invariant]
    spec fn is_allowed(self) -> bool {
        &&& is_download_target(self.kind, self.current@)
        &&& self.requests <= MAX_DOWNLOAD_REQUESTS
    }

    /// The requests for the media at an address.
    pub fn start(address: &str) -> (fetch: Result<DownloadFetch, TaskError>)
        ensures
            match fetch {
                Ok(fetch) => media_read(address@, None) == Ok::<UrlModel, ErrorModel>(
                    fetch@.current,
                ) && fetch@.kind == Kind::Media && fetch@.requests == 0,
                Err(error) => media_read(address@, None) matches Err(model) && error@
                    == TaskErrorModel::Resolve(model),
            },
    {
        match read_download_url(Kind::Media, address) {
            Ok(current) => Ok(DownloadFetch { kind: Kind::Media, current, requests: 0 }),
            Err(error) => Err(error),
        }
    }

    /// The requests for the image at a URL, which is requested as it stands; no
    /// requests if images are not fetched from its host.
    pub fn at(url: WebUrl) -> (fetch: Option<DownloadFetch>)
        ensures
            fetch is Some <==> is_on_image_host(url@),
            fetch matches Some(fetch) ==> fetch@ == (DownloadModel {
                kind: Kind::Image,
                current: url@,
                requests: 0,
            }),
    {
        if on_image_host(&url) {
            Some(DownloadFetch { kind: Kind::Image, current: url, requests: 0 })
        } else {
            None
        }
    }

    /// The URL that was reached.
    pub fn current(&self) -> (url: &WebUrl)
        ensures
            url@ == self@.current,
            is_download_target(self@.kind, url@),
    {
        proof {
            use_type_invariant(self);
        }
        &self.current
    }

    /// Whether the URL may still be requested.
    pub fn next(&self) -> (allowed: Result<(), TaskError>)
        ensures
            allowed is Ok <==> self@.requests < MAX_DOWNLOAD_REQUESTS,
            allowed matches Err(error) ==> error@ == TaskErrorModel::Internal(
                too_many_redirects(self@.kind),
            ),
    {
        if self.requests < MAX_DOWNLOAD_REQUESTS {
            return Ok(());
        }
        let message = match self.kind {
            Kind::Media => owned("媒体重定向次数过多。"),
            Kind::Image => owned("图片重定向次数过多。"),
        };
        Err(TaskError::Internal(message))
    }

    /// Takes the reply to a request for the URL: whether the download is in its
    /// body. If it is not, the URL that was reached is to be requested.
    pub fn receive(&mut self, reply: &Reply) -> (found: Result<bool, TaskError>)
        requires
            old(self)@.requests < MAX_DOWNLOAD_REQUESTS,
        ensures
            match found {
                Ok(true) => old(self)@.received(reply@) == Ok::<
                    Option<DownloadModel>,
                    TaskErrorModel,
                >(None) && final(self)@ == old(self)@,
                Ok(false) => old(self)@.received(reply@) == Ok::<
                    Option<DownloadModel>,
                    TaskErrorModel,
                >(Some(final(self)@)),
                Err(error) => old(self)@.received(reply@) == Err::<
                    Option<DownloadModel>,
                    TaskErrorModel,
                >(error@) && final(self)@ == old(self)@,
            },
    {
        if reply.is_redirection() {
            let location = match &reply.location {
                Some(location) => location,
                None => {
                    let message = match self.kind {
                        Kind::Media => owned("媒体重定向缺少地址。"),
                        Kind::Image => owned("图片重定向缺少地址。"),
                    };
                    return Err(TaskError::Internal(message));
                },
            };
            let next = match self.current.join(location.as_str()) {
                Some(next) => next,
                None => {
                    let message = match self.kind {
                        Kind::Media => owned("媒体重定向地址无效。"),
                        Kind::Image => owned("图片重定向地址无效。"),
                    };
                    return Err(TaskError::Internal(message));
                },
            };
            return match read_download_url(self.kind, next.as_str()) {
                Ok(current) => {
                    let kind = self.kind;
                    let requests: usize = self.requests + 1;
                    *self = DownloadFetch { kind, current, requests };
                    Ok(false)
                },
                Err(error) => Err(error),
            };
        }
        if !reply.is_success() {
            return Err(TaskError::DownloadHttp(reply.status));
        }
        let content = reply.content();
        if starts_with(content.as_str(), "text/") || starts_with(
            content.as_str(),
            "application/json",
        ) {
            return Err(TaskError::InvalidContent);
        }
        Ok(true)
    }
}

/// The number, or the greatest 64-bit number if that is less.
pub open spec fn saturated(number: nat) -> nat {
    if number <= u64::MAX {
        number
    } else {
        u64::MAX as nat
    }
}

/// The progress of a download in percent, given how much of it was taken.
pub open spec fn download_progress(taken: nat, total: nat) -> nat {
    if 15 + saturated(taken * 84) / total < 99 {
        15 + saturated(taken * 84) / total
    } else {
        99
    }
}

/// How much of a download has been taken, within a limit.
pub struct Meter {
    limit: u64,
    total: Option<u64>,
    taken: u64,
}

/// What a [`Meter`] holds.
pub struct MeterModel {
    pub limit: nat,
    pub total: Option<u64>,
    pub taken: nat,
}

impl View for Meter {
    type V = MeterModel;

    closed spec fn view(&self) -> MeterModel {
        MeterModel { limit: self.limit as nat, total: self.total, taken: self.taken as nat }
    }
}

impl MeterModel {
    /// The progress in percent, where the length of the download is known.
    pub open spec fn progress(self) -> Option<u8> {
        match self.total {
            Some(total) => if total > 0 {
                Some(download_progress(self.taken, total as nat) as u8)
            } else {
                None
            },
            None => None,
        }
    }

    /// Nothing taken yet of a download, unless its length is over the limit.
    pub open spec fn started(limit: nat, total: Option<u64>) -> Option<MeterModel> {
        if total matches Some(total) && total > limit {
            None
        } else {
            Some(MeterModel { limit, total, taken: 0 })
        }
    }

    /// So many bytes more, if they do not exceed the limit.
    pub open spec fn with(self, bytes: nat) -> Option<MeterModel> {
        if saturated(self.taken + bytes) <= self.limit {
            Some(MeterModel { taken: saturated(self.taken + bytes), ..self })
        } else {
            None
        }
    }
}

impl Meter {
    #[verifier::type_invariant]
    spec fn is_within_limit(self) -> bool {
        &&& self.taken <= self.limit
        &&& self.total matches Some(total) ==> total <= self.limit
    }

    /// Nothing taken yet of a download, unless its length is over the limit.
    pub fn start(limit: u64, total: Option<u64>) -> (meter: Result<Meter, TaskError>)
        ensures
            meter is Err <==> (total matches Some(total) && total > limit),
            meter matches Err(error) ==> error@ == TaskErrorModel::TooLarge,
            meter matches Ok(meter) ==> meter@ == (MeterModel {
                limit: limit as nat,
                total,
                taken: 0,
            }),
            MeterModel::started(limit as nat, total) == (match meter {
                Ok(meter) => Some(meter@),
                Err(_) => None,
            }),
    {
        if let Some(length) = total {
            if length > limit {
                return Err(TaskError::TooLarge);
            }
        }
        Ok(Meter { limit, total, taken: 0 })
    }

    /// Takes so many bytes more, if they do not exceed the limit.
    pub fn take(&mut self, bytes: usize) -> (taken: Result<(), TaskError>)
        ensures
            taken is Ok <==> saturated(old(self)@.taken + bytes as nat) <= old(self)@.limit,
            taken is Ok ==> final(self)@ == (MeterModel {
                taken: saturated(old(self)@.taken + bytes as nat),
                ..old(self)@
            }),
            taken matches Err(error) ==> error@ == TaskErrorModel::TooLarge && final(self)@
                == old(self)@,
            final(self)@.taken <= final(self)@.limit,
            old(self)@.with(bytes as nat) == (match taken {
                Ok(_) => Some(final(self)@),
                Err(_) => None,
            }),
    {
        proof {
            use_type_invariant(&*self);
        }
        let taken: u64 = self.taken.saturating_add(bytes as u64);
        if taken > self.limit {
            return Err(TaskError::TooLarge);
        }
        *self = Meter { limit: self.limit, total: self.total, taken };
        Ok(())
    }

    /// The progress in percent, where the length of the download is known.
    pub fn progress(&self) -> (progress: Option<u8>)
        ensures
            progress == self@.progress(),
            progress matches Some(progress) ==> 15 <= progress <= 99,
    {
        match self.total {
            Some(total) => {
                if total == 0 {
                    return None;
                }
                let product: u128 = self.taken as u128 * 84;
                let share: u128 = if product <= u64::MAX as u128 {
                    product / total as u128
                } else {
                    u64::MAX as u128 / total as u128
                };
                proof {
                    assert(share <= u64::MAX) by (nonlinear_arith)
                        requires
                            share == saturated(product as nat) / total as nat,
                            saturated(product as nat) <= u64::MAX,
                            total > 0,
                    ;
                }
                let percent: u128 = 15 + share;
                if percent < 99 {
                    Some(percent as u8)
                } else {
                    Some(99)
                }
            },
            None => None,
        }
    }
}

/// The progress of a download does not fall as more of it is taken.
pub proof fn download_progress_rises(taken: nat, more: nat, total: nat)
    requires
        total > 0,
    ensures
        15 <= download_progress(taken, total) <= download_progress(taken + more, total) <= 99,
{
    let less = saturated(taken * 84) as int;
    let greater = saturated((taken + more) * 84) as int;
    assert(less <= greater);
    vstd::arithmetic::div_mod::lemma_div_is_ordered(less, greater, total as int);
    vstd::arithmetic::div_mod::lemma_div_pos_is_pos(less, total as int);
}

} // verus!
