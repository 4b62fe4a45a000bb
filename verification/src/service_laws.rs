//! What the service does with downloads, files, tasks and settings, stated by
//! what goes in and what comes out.
use crate::address::{image_download, media_read};
use crate::config::{
    body_limit, configured, download_limit, in_flight, origins_allowed, origins_in, public_base,
    ConfigModel, CorsModel, Environment, VariableModel,
};
use crate::decode::unsigned_value;
use crate::downloads::{DownloadModel, Kind, MeterModel};
use crate::errors::{ConfigErrorModel, ErrorModel};
use crate::fetch::ReplyModel;
use crate::files::{content_type_of, is_safe_asset, is_safe_file_name, is_safe_part, page_type_of};
use crate::naming::{image_extension, part_name, safe_id};
use crate::tasks::{
    after_event, image_planned, public_message, queued, share_refused, task_planned, video_planned,
    EventModel, FileModel, PlanModel, TaskErrorModel, TaskModel, TaskStatus, WorkModel,
};
use crate::text::{decimal, lower, split_at_mark, trimmed};
use crate::text_laws::{
    is_around, is_blank, parts_stand_between_others, tasks_are_known_by_their_digits,
    texts_are_split_at_marks, what_follows_the_last_mark_is_kept, white_space_around_is_left_out,
};
use crate::weburl::{url_joined, UrlModel};
use crate::work::{Phase, RunModel, RunStepModel};
use vstd::prelude::*;

verus! {

/// The content's type in small letters; nothing where it is not said.
pub open spec fn said_type(reply: ReplyModel) -> Seq<char> {
    match reply.content_type {
        Some(kind) => lower(kind),
        None => Seq::empty(),
    }
}

/// Of a video as of an image, a reply that is a success is taken for the file
/// unless it is text or JSON; nothing else is ever taken for the file.
pub proof fn files_are_taken_from_successes(state: DownloadModel, reply: ReplyModel)
    ensures
        ({
            let received = state.received(reply);
            let taken = received == Ok::<Option<DownloadModel>, TaskErrorModel>(None);
            let refused = "text/"@.is_prefix_of(said_type(reply))
                || "application/json"@.is_prefix_of(said_type(reply));
            &&& 200 <= reply.status <= 299 ==> (taken <==> !refused)
            &&& 200 <= reply.status <= 299 && refused ==> received == Err::<
                Option<DownloadModel>,
                TaskErrorModel,
            >(TaskErrorModel::InvalidContent)
            &&& !(200 <= reply.status <= 299) ==> !taken
            &&& !(200 <= reply.status <= 399) ==> received == Err::<
                Option<DownloadModel>,
                TaskErrorModel,
            >(TaskErrorModel::DownloadHttp(reply.status))
        }),
        reply.is_success() ==> (state.received(reply) == Ok::<Option<DownloadModel>, TaskErrorModel>(
            None,
        ) <==> !crate::downloads::is_page(reply.content())),
{
}

/// What a download is redirected to is checked as the address of the download
/// was, counts as one more request, and is of the same kind.
pub proof fn download_redirects_are_checked(state: DownloadModel, reply: ReplyModel)
    requires
        300 <= reply.status <= 399,
    ensures
        reply.location is None ==> state.received(reply) == Err::<
            Option<DownloadModel>,
            TaskErrorModel,
        >(
            TaskErrorModel::Internal(
                match state.kind {
                    Kind::Media => "媒体重定向缺少地址。"@,
                    Kind::Image => "图片重定向缺少地址。"@,
                },
            ),
        ),
        reply.location matches Some(location) ==> match url_joined(
            state.current.text(),
            location,
        ) {
            None => state.received(reply) == Err::<Option<DownloadModel>, TaskErrorModel>(
                TaskErrorModel::Internal(
                    match state.kind {
                        Kind::Media => "媒体重定向地址无效。"@,
                        Kind::Image => "图片重定向地址无效。"@,
                    },
                ),
            ),
            Some(next) => {
                let checked = match state.kind {
                    Kind::Media => media_read(next.text(), None),
                    Kind::Image => image_download(next.text()),
                };
                match checked {
                    Err(error) => state.received(reply) == Err::<
                        Option<DownloadModel>,
                        TaskErrorModel,
                    >(TaskErrorModel::Resolve(error)),
                    Ok(url) => state.received(reply) == Ok::<Option<DownloadModel>, TaskErrorModel>(
                        Some(
                            DownloadModel {
                                kind: state.kind,
                                current: url,
                                requests: state.requests + 1,
                            },
                        ),
                    ),
                }
            },
        },
{
}

/// The progress of a download is 15 percent and the part of 84 that was taken,
/// 99 at most; it is not known where the length is not known.
pub proof fn downloads_report_their_part(meter: MeterModel)
    ensures
        meter.total is None ==> meter.progress() is None,
        meter.total matches Some(total) ==> {
            &&& total == 0 ==> meter.progress() is None
            &&& total > 0 ==> (meter.progress() matches Some(progress) && 15 <= progress <= 99)
            &&& total > 0 && meter.taken * 84 <= u64::MAX && meter.taken <= total ==> {
                let progress = meter.progress()->0 as int;
                &&& (progress - 15) * total <= meter.taken * 84
                &&& meter.taken * 84 < (progress - 14) * total
            }
        },
{
    if let Some(total) = meter.total {
        if total > 0 {
            crate::downloads::download_progress_rises(meter.taken, 0, total as nat);
            if meter.taken * 84 <= u64::MAX && meter.taken <= total {
                let taken = meter.taken as int * 84;
                let share = taken / (total as int);
                vstd::arithmetic::div_mod::lemma_fundamental_div_mod(taken, total as int);
                vstd::arithmetic::div_mod::lemma_mod_bound(taken, total as int);
                assert(share <= 84) by (nonlinear_arith)
                    requires
                        total as int * share <= taken,
                        taken <= 84 * total as int,
                        total > 0,
                ;
                assert(meter.progress()->0 == 15 + share);
                assert(share * total <= taken && taken < (share + 1) * total) by (nonlinear_arith)
                    requires
                        taken == total as int * share + taken % (total as int),
                        0 <= taken % (total as int) < total as int,
                ;
            }
        }
    }
}

/// Bytes are counted as they are, as far as the counter goes.
pub proof fn bytes_are_counted(taken: nat, bytes: nat)
    ensures
        taken + bytes <= 0xffff_ffff_ffff_ffff ==> crate::downloads::saturated(taken + bytes)
            == taken + bytes,
        taken + bytes > 0xffff_ffff_ffff_ffff ==> crate::downloads::saturated(taken + bytes)
            == 0xffff_ffff_ffff_ffff,
{
}

/// A download is not begun where its length is over the limit, and what is taken
/// of it never exceeds the limit; within the limit, every byte is taken.
pub proof fn downloads_stay_within_their_limit(
    meter: MeterModel,
    limit: nat,
    total: Option<u64>,
    bytes: nat,
)
    requires
        meter.limit < 0xffff_ffff_ffff_ffff,
    ensures
        total is None ==> MeterModel::started(limit, total) is Some,
        total matches Some(total) ==> (MeterModel::started(limit, Some(total)) is Some <==> total
            <= limit),
        MeterModel::started(limit, total) matches Some(started) ==> started.taken == 0
            && started.limit == limit && started.total == total,
        meter.taken + bytes <= meter.limit ==> (meter.with(bytes) matches Some(after)
            && after.taken == meter.taken + bytes && after.limit == meter.limit && after.total
            == meter.total),
        meter.taken + bytes > meter.limit ==> meter.with(bytes) is None,
{
}

/// The last segment of an image's path names the kind of its file: what follows
/// its last full stop, where that is one of six endings. Everything else is
/// saved as `jpg`.
pub proof fn images_keep_their_ending(
    url: UrlModel,
    folder: Seq<char>,
    head: Seq<char>,
    ending: Seq<char>,
)
    requires
        url.path == folder + seq!['/'] + head + seq!['.'] + ending,
        !head.contains('/'),
        !ending.contains('/'),
        !ending.contains('.'),
    ensures
        ending == "jpg"@ || ending == "jpeg"@ || ending == "png"@ || ending == "webp"@ || ending
            == "gif"@ || ending == "avif"@ ==> image_extension(url) == ending,
        !(ending == "jpg"@ || ending == "jpeg"@ || ending == "png"@ || ending == "webp"@ || ending
            == "gif"@ || ending == "avif"@) ==> image_extension(url) == "jpg"@,
{
    let segment = head + seq!['.'] + ending;
    assert(!segment.contains('/')) by {
        assert forall|i: int| 0 <= i < segment.len() implies segment[i] != '/' by {
            if i < head.len() {
                assert(head.contains(head[i]));
            } else if i > head.len() {
                assert(ending.contains(ending[i - head.len() - 1]));
                assert(segment[i] == ending[i - head.len() - 1]);
            }
        }
    }
    assert(url.path =~= folder + seq!['/'] + segment);
    what_follows_the_last_mark_is_kept(folder, segment, '/');
    what_follows_the_last_mark_is_kept(head, ending, '.');
}

/// An image is saved, if it may be downloaded, under a name of its task, its
/// place and its kind, which ends as the image's address does.
pub proof fn images_are_named_by_their_place(
    address: Seq<char>,
    index: nat,
    safe: Seq<char>,
    id: u128,
    folder: Seq<char>,
    head: Seq<char>,
    ending: Seq<char>,
)
    requires
        !head.contains('/'),
        !ending.contains('/'),
        !ending.contains('.'),
        ending == "jpg"@ || ending == "jpeg"@ || ending == "png"@ || ending == "webp"@ || ending
            == "gif"@ || ending == "avif"@,
    ensures
        image_download(address) matches Err(error) ==> image_planned(address, index, safe, id)
            == Err::<(UrlModel, PlanModel), TaskErrorModel>(TaskErrorModel::Resolve(error)),
        image_download(address) matches Ok(url) ==> (image_planned(address, index, safe, id) matches Ok(
            (found, plan),
        ) && found == url && (url.path == folder + seq!['/'] + head + seq!['.'] + ending
            ==> plan.name == "qsy-"@ + safe + "-"@ + crate::naming::simple_id(id).subrange(0, 8)
            + "-"@ + decimal(index + 1) + "."@ + ending)),
{
    tasks_are_known_by_their_digits(id);
    if let Ok(url) = image_download(address) {
        if url.path == folder + seq!['/'] + head + seq!['.'] + ending {
            images_keep_their_ending(url, folder, head, ending);
        }
    }
}

/// While a file is written it stands under its name with its task's number and
/// `.part`, for a video as for an image.
pub proof fn files_are_written_under_another_name(
    name: Seq<char>,
    media_url: Option<Seq<char>>,
    address: Seq<char>,
    index: nat,
    safe: Seq<char>,
    id: u128,
)
    ensures
        part_name(name, id) == name + "."@ + crate::naming::simple_id(id) + ".part"@,
        video_planned(media_url, safe, id) matches Ok(plan) ==> plan.part == part_name(
            plan.name,
            id,
        ),
        image_planned(address, index, safe, id) matches Ok((_, plan)) ==> plan.part == part_name(
            plan.name,
            id,
        ),
{
}

/// A task saves the images of a post if it has any, and else its video. The
/// video is saved if there is one that may be downloaded, under a name of the
/// video and the task.
pub proof fn images_come_before_the_video(
    images: nat,
    media_url: Option<Seq<char>>,
    safe: Seq<char>,
    id: u128,
)
    ensures
        images > 0 ==> task_planned(images, media_url, safe, id) == Ok::<WorkModel, TaskErrorModel>(
            WorkModel::Images(images),
        ),
        media_url is None ==> video_planned(media_url, safe, id) == Err::<
            PlanModel,
            TaskErrorModel,
        >(TaskErrorModel::NoMedia),
        media_url matches Some(url) ==> match media_read(url, None) {
            Err(error) => video_planned(media_url, safe, id) == Err::<PlanModel, TaskErrorModel>(
                TaskErrorModel::Resolve(error),
            ),
            Ok(_) => video_planned(media_url, safe, id) matches Ok(plan) && plan.name == "qsy-"@
                + (if safe.len() > 0 {
                safe
            } else {
                "media"@
            }) + "-"@ + crate::naming::simple_id(id).subrange(0, 8) + ".mp4"@,
        },
        images == 0 ==> match video_planned(media_url, safe, id) {
            Err(error) => task_planned(images, media_url, safe, id) == Err::<
                WorkModel,
                TaskErrorModel,
            >(error),
            Ok(plan) => task_planned(images, media_url, safe, id) == Ok::<WorkModel, TaskErrorModel>(
                WorkModel::Video(plan),
            ),
        },
{
    tasks_are_known_by_their_digits(id);
}

/// Of a video's number the letters and digits of ASCII are kept, in their order,
/// and nothing else.
pub proof fn letters_and_digits_are_kept(text: Seq<char>, next: char)
    ensures
        safe_id(Seq::empty()).len() == 0,
        'a' <= next <= 'z' || 'A' <= next <= 'Z' || '0' <= next <= '9' ==> safe_id(text.push(next))
            == safe_id(text).push(next),
        !('a' <= next <= 'z' || 'A' <= next <= 'Z' || '0' <= next <= '9') ==> safe_id(
            text.push(next),
        ) == safe_id(text),
{
    reveal(Seq::filter);
    assert(text.push(next).drop_last() =~= text);
}

/// A file is offered under a name of at most 160 bytes, of letters, digits and
/// `-`, `_` and `.`, which does not begin with `.` and ends in `.mp4` or as an
/// image does, in small or capital letters.
pub proof fn file_names_are_plain(name: Seq<char>, head: Seq<char>, ending: Seq<char>)
    requires
        name == head + seq!['.'] + ending,
        !ending.contains('.'),
    ensures
        is_safe_file_name(name) <==> {
            &&& vstd::utf8::encode_utf8(name).len() <= 160
            &&& forall|i: int|
                0 <= i < name.len() ==> ('a' <= #[trigger] name[i] <= 'z' || 'A' <= name[i] <= 'Z'
                    || '0' <= name[i] <= '9' || name[i] == '-' || name[i] == '_' || name[i] == '.')
            &&& head.len() > 0
            &&& name[0] != '.'
            &&& lower(ending) == "mp4"@ || lower(ending) == "jpg"@ || lower(ending) == "jpeg"@
                || lower(ending) == "png"@ || lower(ending) == "webp"@ || lower(ending) == "gif"@
                || lower(ending) == "avif"@
        },
        lower(ending) == "mp4"@ ==> content_type_of(name) == "video/mp4"@,
        lower(ending) == "jpg"@ || lower(ending) == "jpeg"@ ==> content_type_of(name)
            == "image/jpeg"@,
        lower(ending) == "png"@ ==> content_type_of(name) == "image/png"@,
        lower(ending) == "webp"@ ==> content_type_of(name) == "image/webp"@,
        lower(ending) == "gif"@ ==> content_type_of(name) == "image/gif"@,
        lower(ending) == "avif"@ ==> content_type_of(name) == "image/avif"@,
{
    what_follows_the_last_mark_is_kept(head, ending, '.');
    reveal_strlit("mp4");
    reveal_strlit("jpg");
    reveal_strlit("jpeg");
    reveal_strlit("png");
    reveal_strlit("webp");
    reveal_strlit("gif");
    reveal_strlit("avif");
    assert("mp4"@[0] == 'm' && "jpg"@[0] == 'j' && "png"@[0] == 'p' && "gif"@[0] == 'g');
    assert("jpeg"@[0] == 'j' && "webp"@[0] == 'w' && "avif"@[0] == 'a');
    if is_safe_file_name(name) && head.len() == 0 {
        assert(name[0] == '.');
    }
    if is_safe_file_name(name) {
        assert forall|i: int| 0 <= i < name.len() implies ('a' <= #[trigger] name[i] <= 'z' || 'A'
            <= name[i] <= 'Z' || '0' <= name[i] <= '9' || name[i] == '-' || name[i] == '_'
            || name[i] == '.') by {
            assert(crate::text::is_name_char(name[i]));
        }
    }
}

/// The pages of the site are served with the type that their ending stands for.
pub proof fn pages_are_typed_by_their_ending(extension: Seq<char>)
    ensures
        extension == "html"@ ==> page_type_of(extension) == "text/html; charset=utf-8"@,
        extension == "js"@ ==> page_type_of(extension) == "text/javascript; charset=utf-8"@,
        extension == "css"@ ==> page_type_of(extension) == "text/css; charset=utf-8"@,
        extension == "svg"@ ==> page_type_of(extension) == "image/svg+xml"@,
        extension == "png"@ ==> page_type_of(extension) == "image/png"@,
        extension == "jpg"@ || extension == "jpeg"@ ==> page_type_of(extension) == "image/jpeg"@,
        extension == "webp"@ ==> page_type_of(extension) == "image/webp"@,
        extension == "ico"@ ==> page_type_of(extension) == "image/x-icon"@,
        extension == "json"@ ==> page_type_of(extension) == "application/json; charset=utf-8"@,
        extension != "html"@ && extension != "js"@ && extension != "css"@ && extension != "svg"@
            && extension != "png"@ && extension != "jpg"@ && extension != "jpeg"@ && extension
            != "webp"@ && extension != "ico"@ && extension != "json"@ ==> page_type_of(extension)
            == "application/octet-stream"@,
{
    reveal_strlit("html");
    reveal_strlit("js");
    reveal_strlit("css");
    reveal_strlit("svg");
    reveal_strlit("png");
    reveal_strlit("jpg");
    reveal_strlit("jpeg");
    reveal_strlit("webp");
    reveal_strlit("ico");
    reveal_strlit("json");
    assert("css"@[0] == 'c' && "svg"@[0] == 's' && "png"@[0] == 'p' && "jpg"@[0] == 'j');
    assert("ico"@[0] == 'i' && "html"@[0] == 'h' && "webp"@[0] == 'w');
    assert("jpeg"@[1] == 'p' && "json"@[1] == 's' && "html"@[1] == 't' && "webp"@[1] == 'e');
    assert("js"@.len() == 2 && "jpg"@.len() == 3 && "png"@.len() == 3 && "css"@.len() == 3);
    assert("svg"@.len() == 3 && "ico"@.len() == 3 && "jpeg"@.len() == 4 && "json"@.len() == 4);
    assert("html"@.len() == 4 && "webp"@.len() == 4);
}

/// A path in the site is served if each of its segments is of letters, digits
/// and `-`, `_` and `.`, is not empty, and does not lead out of its folder.
pub proof fn paths_are_checked_by_segment(path: Seq<char>, segment: Seq<char>)
    requires
        !segment.contains('/'),
    ensures
        is_safe_asset(path + seq!['/'] + segment) <==> is_safe_asset(path) && is_safe_asset(
            segment,
        ),
        is_safe_asset(segment) <==> {
            &&& segment.len() > 0
            &&& segment != seq!['.']
            &&& segment != seq!['.', '.']
            &&& forall|i: int|
                0 <= i < segment.len() ==> ('a' <= #[trigger] segment[i] <= 'z' || 'A' <= segment[i]
                    <= 'Z' || '0' <= segment[i] <= '9' || segment[i] == '-' || segment[i] == '_'
                    || segment[i] == '.')
        },
{
    reveal_strlit(".");
    reveal_strlit("..");
    assert("."@ =~= seq!['.']);
    assert(".."@ =~= seq!['.', '.']);
    texts_are_split_at_marks(path, segment, '/');
    let whole = path + seq!['/'] + segment;
    let parts = split_at_mark(path, '/');
    assert(split_at_mark(whole, '/') == parts.push(segment));
    assert(split_at_mark(segment, '/')[0] == segment);
    if is_safe_asset(whole) {
        assert forall|i: int| 0 <= i < parts.len() implies is_safe_part(#[trigger] parts[i]) by {
            assert(split_at_mark(whole, '/')[i] == parts[i]);
        }
        assert(split_at_mark(whole, '/')[parts.len() as int] == segment);
    }
    if is_safe_asset(path) && is_safe_asset(segment) {
        assert forall|i: int| 0 <= i < split_at_mark(whole, '/').len() implies is_safe_part(
            #[trigger] split_at_mark(whole, '/')[i],
        ) by {
            if i < parts.len() {
                assert(split_at_mark(whole, '/')[i] == parts[i]);
            } else {
                assert(split_at_mark(segment, '/')[0] == segment);
            }
        }
    }
    if is_safe_part(segment) {
        assert forall|i: int| 0 <= i < segment.len() implies ('a' <= #[trigger] segment[i] <= 'z'
            || 'A' <= segment[i] <= 'Z' || '0' <= segment[i] <= '9' || segment[i] == '-'
            || segment[i] == '_' || segment[i] == '.') by {
            assert(crate::text::is_name_char(segment[i]));
        }
    }
}

/// A share text is refused where it is empty or white space, and where it has
/// more than 16384 bytes.
pub proof fn share_texts_are_bounded(text: Seq<char>)
    ensures
        trimmed(text).len() == 0 ==> (share_refused(text) matches Some(error) && error.status == 400
            && error.code == "missing_input"@),
        trimmed(text).len() > 0 && vstd::utf8::encode_utf8(text).len() > 16384 ==> (share_refused(
            text,
        ) matches Some(error) && error.status == 413 && error.code == "input_too_large"@),
        share_refused(text) is None <==> trimmed(text).len() > 0 && vstd::utf8::encode_utf8(
            text,
        ).len() <= 16384,
{
}

/// A request body that is too large or of another type is told apart from one
/// that is no JSON.
pub proof fn bodies_are_refused_by_status(status: u16)
    ensures
        crate::tasks::body_code(413) == "payload_too_large"@,
        crate::tasks::body_code(415) == "unsupported_media_type"@,
        status != 413 && status != 415 ==> crate::tasks::body_code(status) == "invalid_json"@,
{
}

/// Users are told what went wrong: the reason that the resolver gave, the status
/// of the reply, or the text of the failure; a request that took too long is
/// told apart from one that could not be made.
pub proof fn users_are_told_what_went_wrong(
    error: ErrorModel,
    status: u16,
    connect: bool,
    text: Seq<char>,
)
    ensures
        public_message(TaskErrorModel::Resolve(error)) == error.error,
        public_message(TaskErrorModel::Internal(text)) == text,
        public_message(TaskErrorModel::Http(true, connect, text))
            == "服务器下载媒体超时，请稍后重试。"@,
        public_message(TaskErrorModel::Http(false, true, text))
            == "服务器无法连接媒体 CDN，请检查网络或代理设置。"@,
        public_message(TaskErrorModel::Http(false, false, text)) == "服务器下载媒体失败："@ + text,
        public_message(TaskErrorModel::DownloadHttp(status)) == "媒体 CDN 返回 HTTP "@ + decimal(
            status as nat,
        ) + "。"@,
        public_message(TaskErrorModel::InvalidContent)
            == "媒体 CDN 返回了网页或 JSON，而不是视频文件。"@,
        public_message(TaskErrorModel::Io(text)) == "服务器保存文件失败："@ + text,
        public_message(TaskErrorModel::NoMedia) == "未找到可下载的视频地址。"@,
        public_message(TaskErrorModel::TooLarge) == "文件超过服务器允许的大小。"@,
        crate::tasks::log_message(TaskErrorModel::Resolve(error)) == error.error,
        crate::tasks::log_message(TaskErrorModel::Internal(text)) == text,
        crate::tasks::log_message(TaskErrorModel::Io(text)) == text,
        crate::tasks::log_message(TaskErrorModel::Http(connect, connect, text)) == text,
        crate::tasks::log_message(TaskErrorModel::DownloadHttp(status))
            == "media CDN returned HTTP "@ + decimal(status as nat),
        crate::tasks::log_message(TaskErrorModel::InvalidContent)
            == "media CDN returned non-media content"@,
        crate::tasks::log_message(TaskErrorModel::NoMedia) == "no media URL in resolver response"@,
        crate::tasks::log_message(TaskErrorModel::TooLarge)
            == "download exceeds configured size limit"@,
{
}

/// A task begins in the queue, with nothing done, found or saved.
pub proof fn tasks_begin_in_the_queue(id: u128)
    ensures
        queued(id).id == id,
        queued(id).status == TaskStatus::Queued,
        queued(id).stage == "等待后台处理"@,
        queued(id).progress == Some(0u8),
        queued(id).title is None,
        queued(id).video_id is None,
        queued(id).download_url is None,
        queued(id).files.len() == 0,
        queued(id).error is None,
{
}

/// No event changes which task it is, and events keep what the task found and
/// saved: the files stay, in their places, and at most one comes behind them.
/// What is found is kept by all but the finding itself.
pub proof fn events_keep_what_was_saved(task: TaskModel, event: EventModel, base: Seq<char>)
    ensures
        ({
            let after = after_event(task, event, base);
            &&& after.id == task.id
            &&& task.files.is_prefix_of(after.files)
            &&& after.files.len() <= task.files.len() + 1
            &&& after.files.len() == task.files.len() + 1 <==> event is VideoSaved
                || event is ImageSaved
            &&& !(event is Resolved) ==> after.title == task.title && after.video_id == task.video_id
            &&& !(event is VideoSaved) ==> after.download_url == task.download_url
            &&& !(event is Failed) ==> after.error == task.error
            &&& !(event is Started || event is VideoSaved || event is ImagesSaved
                || event is Failed) ==> after.status == task.status
            &&& event is Resolved ==> after.stage == task.stage && after.progress == task.progress
            &&& event is VideoProgress || event is ImageSaved ==> after.stage == task.stage
        }),
{
}

/// A task that starts is being worked on; one whose video or images are saved is
/// completed; one that fails has failed, with the reason.
pub proof fn events_move_tasks_on(
    task: TaskModel,
    title: Option<Seq<char>>,
    video_id: Seq<char>,
    progress: Option<u8>,
    count: nat,
    reason: Seq<char>,
    base: Seq<char>,
)
    ensures
        ({
            let started = after_event(task, EventModel::Started, base);
            started.status == TaskStatus::Processing && started.progress == Some(8u8)
                && started.stage == "正在解析分享链接"@
        }),
        ({
            let found = after_event(task, EventModel::Resolved { title, video_id }, base);
            found.title == title && found.video_id == Some(video_id)
        }),
        ({
            let loading = after_event(task, EventModel::VideoStarted, base);
            loading.progress == Some(15u8) && loading.stage == "正在下载视频到服务器"@
        }),
        after_event(task, EventModel::VideoProgress(progress), base).progress == progress,
        ({
            let loading = after_event(task, EventModel::ImagesStarted(count), base);
            loading.progress == Some(10u8) && loading.stage == "正在下载 "@ + decimal(count)
                + " 张图片到服务器"@
        }),
        ({
            let done = after_event(task, EventModel::ImagesSaved(count), base);
            done.status == TaskStatus::Completed && done.progress == Some(100u8) && done.stage
                == decimal(count) + " 张图片已准备好"@
        }),
        ({
            let failed = after_event(task, EventModel::Failed(reason), base);
            failed.status == TaskStatus::Failed && failed.error == Some(reason)
                && failed.progress is None && failed.stage == "处理失败"@
        }),
{
}

/// A file that was saved is offered at its name below the public address. A
/// video completes its task and is what the task offers; an image is one of so
/// many, and its task goes on with a tenth and its part of the rest done.
pub proof fn saved_files_are_offered_at_their_name(
    task: TaskModel,
    name: Seq<char>,
    index: nat,
    count: nat,
    base: Seq<char>,
)
    requires
        index < count,
    ensures
        ({
            let after = after_event(task, EventModel::VideoSaved(name), base);
            &&& after.files.last() == (FileModel {
                kind: "video"@,
                name,
                download_url: base + "/"@ + name,
                index: 0,
            })
            &&& after.download_url == Some(base + "/"@ + name)
            &&& after.status == TaskStatus::Completed
            &&& after.progress == Some(100u8)
            &&& after.stage == "视频文件已准备好"@
        }),
        ({
            let after = after_event(task, EventModel::ImageSaved { name, index, count }, base);
            &&& after.files.last() == (FileModel {
                kind: "image"@,
                name,
                download_url: base + "/"@ + name,
                index,
            })
            &&& after.progress matches Some(progress) && 10 <= progress <= 100 && (progress - 10)
                * count <= (index + 1) * 90 < (progress - 9) * count
        }),
{
    crate::tasks::image_progress_rises_to_the_end(index, count);
    let part = (index + 1) * 90;
    let share = part / count;
    vstd::arithmetic::div_mod::lemma_fundamental_div_mod(part as int, count as int);
    vstd::arithmetic::div_mod::lemma_mod_bound(part as int, count as int);
    assert(share <= 90) by (nonlinear_arith)
        requires
            count * share <= part,
            part <= 90 * count,
            count > 0,
    ;
    assert(share * count <= part && part < (share + 1) * count) by (nonlinear_arith)
        requires
            part as int == count as int * share as int + (part as int) % (count as int),
            0 <= (part as int) % (count as int) < count as int,
    ;
}

/// What a run does next in each of its phases. The images are taken one after
/// the other, each by its address and its number; the video is taken by its
/// address. What cannot be planned ends the run with the error.
pub proof fn runs_take_one_file_at_a_time(run: RunModel, saved: usize)
    ensures
        run.phase == Phase::Start && run.images.len() > 0 ==> run.advanced() == Ok::<
            (RunStepModel, RunModel),
            TaskErrorModel,
        >(
            (
                RunStepModel::Note(EventModel::ImagesStarted(run.images.len())),
                RunModel { phase: Phase::Images(0), ..run },
            ),
        ),
        run.phase == Phase::Start && run.images.len() == 0 ==> match video_planned(
            run.media_url,
            run.safe,
            run.id,
        ) {
            Err(error) => run.advanced() == Err::<(RunStepModel, RunModel), TaskErrorModel>(error),
            Ok(_) => run.advanced() == Ok::<(RunStepModel, RunModel), TaskErrorModel>(
                (
                    RunStepModel::Note(EventModel::VideoStarted),
                    RunModel { phase: Phase::Video, ..run },
                ),
            ),
        },
        run.phase == Phase::Video ==> match video_planned(run.media_url, run.safe, run.id) {
            Err(error) => run.advanced() == Err::<(RunStepModel, RunModel), TaskErrorModel>(error),
            Ok(file) => run.advanced() matches Ok((step, next)) && step
                == (RunStepModel::SaveVideo { address: run.media_url->0, file }) && next.phase
                == Phase::VideoPending && next.saved().0 == EventModel::VideoSaved(file.name)
                && next.saved().1.phase == Phase::Done,
        },
        run.phase == Phase::Images(saved) && saved < run.images.len() ==> match image_planned(
            run.images[saved as int].url,
            run.images[saved as int].index,
            run.safe,
            run.id,
        ) {
            Err(error) => run.advanced() == Err::<(RunStepModel, RunModel), TaskErrorModel>(error),
            Ok((url, file)) => run.advanced() matches Ok((step, next)) && step
                == (RunStepModel::SaveImage { url, file }) && next.phase == Phase::ImagePending(
                saved,
            ) && next.saved().0 == (EventModel::ImageSaved {
                name: file.name,
                index: run.images[saved as int].index,
                count: run.images.len(),
            }) && next.saved().1.images == run.images && (saved + 1 <= usize::MAX
                ==> next.saved().1.phase == Phase::Images((saved + 1) as usize)),
        },
        run.phase == Phase::Images(saved) && saved >= run.images.len() ==> (run.advanced() matches Ok(
            (step, next),
        ) && step == RunStepModel::Note(EventModel::ImagesSaved(run.images.len())) && next.phase
            == Phase::Done),
        run.phase == Phase::Done ==> (run.advanced() matches Ok((RunStepModel::Finished, _))),
{
}

/// The number that a setting gives, or else the default; nothing where the
/// setting is not a number.
pub open spec fn number_set(variable: VariableModel, default: nat) -> Option<nat> {
    match variable {
        VariableModel::Missing => Some(default),
        VariableModel::Text(text) => unsigned_value(text, 10, 0xffff_ffff_ffff_ffff),
        VariableModel::Unreadable(_) => None,
    }
}

/// Three settings are numbers, each with its bounds and its default: requests
/// are of at most 64 KiB, between 1 KiB and 1 MiB; 8 of them are served at a
/// time, between 1 and 128; files are of at most 2 GiB, between 1 MiB and 20 GiB.
pub proof fn numbers_are_set_within_bounds(environment: Environment)
    ensures
        ({
            let bytes = number_set(environment.body_limit_bytes@, 65536);
            match body_limit(environment) {
                Ok(number) => bytes == Some(number as nat) && 1024 <= number <= 1048576,
                Err(error) => error.variable == "QSY_API_BODY_LIMIT_BYTES"@ && !(bytes matches Some(
                    number,
                ) && 1024 <= number <= 1048576),
            }
        }),
        ({
            let count = number_set(environment.max_in_flight@, 8);
            match in_flight(environment) {
                Ok(number) => count == Some(number as nat) && 1 <= number <= 128,
                Err(error) => error.variable == "QSY_API_MAX_IN_FLIGHT"@ && !(count matches Some(
                    number,
                ) && 1 <= number <= 128),
            }
        }),
        ({
            let bytes = number_set(environment.max_download_bytes@, 2147483648);
            match download_limit(environment) {
                Ok(number) => bytes == Some(number as nat) && 1048576 <= number <= 21474836480,
                Err(error) => error.variable == "QSY_API_MAX_DOWNLOAD_BYTES"@ && !(
                bytes matches Some(number) && 1048576 <= number <= 21474836480),
            }
        }),
{
}

/// A number out of bounds is refused with the bounds; what is no number, with
/// the reason why it is none.
pub proof fn refused_numbers_are_told_their_bounds(
    name: Seq<char>,
    number: Result<u64, Seq<char>>,
    min: u64,
    max: u64,
    text: Seq<char>,
    default: u64,
)
    ensures
        ({
            let result = crate::config::number_within(name, number, min, max);
            &&& number matches Ok(value) ==> if min <= value <= max {
                result == Ok::<u64, ConfigErrorModel>(value)
            } else {
                result == Err::<u64, ConfigErrorModel>(
                    ConfigErrorModel {
                        variable: name,
                        message: "must be between "@ + decimal(min as nat) + " and "@ + decimal(
                            max as nat,
                        ),
                    },
                )
            }
            &&& number matches Err(reason) ==> result == Err::<u64, ConfigErrorModel>(
                ConfigErrorModel { variable: name, message: reason },
            )
        }),
        unsigned_value(text, 10, 0xffff_ffff_ffff_ffff) is None ==> crate::config::number_given(
            VariableModel::Text(text),
            default,
        ) == Err::<u64, Seq<char>>(crate::config::number_error(text)),
        crate::config::number_given(VariableModel::Unreadable(text), default) == Err::<
            u64,
            Seq<char>,
        >(text),
{
}

/// The public address is taken without white space around it and without
/// slashes at its end, if it begins with a slash and holds neither `..` nor a
/// query nor a fragment; anything else is refused.
pub proof fn public_addresses_are_paths(
    before: Seq<char>,
    inner: Seq<char>,
    slashes: Seq<char>,
    after: Seq<char>,
)
    requires
        inner.len() > 0,
        !is_blank(inner[0]),
        inner.last() != '/',
        slashes.len() == 0 ==> !is_blank(inner.last()),
        forall|i: int| 0 <= i < before.len() ==> is_blank(#[trigger] before[i]),
        forall|i: int| 0 <= i < after.len() ==> is_blank(#[trigger] after[i]),
        forall|i: int| 0 <= i < slashes.len() ==> #[trigger] slashes[i] == '/',
    ensures
        ({
            let base = public_base(before + (inner + slashes) + after);
            let accepted = inner[0] == '/' && !is_around(inner, ".."@) && !inner.contains('?')
                && !inner.contains('#');
            &&& accepted ==> base == Ok::<Seq<char>, ConfigErrorModel>(inner)
            &&& !accepted ==> (base matches Err(error) && error.variable
                == "QSY_API_PUBLIC_DOWNLOAD_BASE"@)
        }),
{
    let middle = inner + slashes;
    if slashes.len() > 0 {
        assert(slashes[slashes.len() - 1] == '/');
        assert(middle.last() == '/');
    } else {
        assert(middle =~= inner);
    }
    assert(middle[0] == inner[0]);
    white_space_around_is_left_out(before, middle, after);
    lemma_slashes(inner, slashes);
    parts_stand_between_others(inner, ".."@);
    reveal_strlit("/");
    assert("/"@ =~= seq!['/']);
    assert("/"@.is_prefix_of(inner) <==> inner[0] == '/') by {
        if inner[0] == '/' {
            assert(inner.subrange(0, 1) =~= seq!['/']);
        }
        if "/"@.is_prefix_of(inner) {
            assert("/"@[0] == '/');
        }
    }
}

proof fn lemma_slashes(inner: Seq<char>, slashes: Seq<char>)
    requires
        inner.len() > 0,
        inner.last() != '/',
        forall|i: int| 0 <= i < slashes.len() ==> #[trigger] slashes[i] == '/',
    ensures
        crate::text::trim_end_by(inner + slashes, |character: char| character == '/') == inner,
    decreases slashes.len(),
{
    if slashes.len() > 0 {
        let fewer = slashes.drop_last();
        assert forall|i: int| 0 <= i < fewer.len() implies #[trigger] fewer[i] == '/' by {
            assert(slashes[i] == '/');
        }
        lemma_slashes(inner, fewer);
        assert(slashes[slashes.len() - 1] == '/');
        assert((inner + slashes).last() == '/');
        assert((inner + slashes).drop_last() =~= inner + fewer);
    } else {
        assert(inner + slashes =~= inner);
    }
}

/// A list of origins is split at commas; an origin is taken without the white
/// space around it, and an empty one is left out.
pub proof fn origins_are_split_at_commas(value: Seq<char>, piece: Seq<char>)
    requires
        !piece.contains(','),
    ensures
        trimmed(piece).len() > 0 ==> origins_in(piece) == seq![trimmed(piece)],
        trimmed(piece).len() == 0 ==> origins_in(piece).len() == 0,
        trimmed(piece).len() > 0 ==> origins_in(value + seq![','] + piece) == origins_in(
            value,
        ).push(trimmed(piece)),
        trimmed(piece).len() == 0 ==> origins_in(value + seq![','] + piece) == origins_in(value),
{
    texts_are_split_at_marks(value, piece, ',');
    let pieces = split_at_mark(value, ',');
    lemma_filled(pieces, piece, pieces.len());
    reveal_with_fuel(crate::config::filled_pieces, 2);
    assert(seq![piece][0] == piece);
    assert(pieces.push(piece)[pieces.len() as int] == piece);
    assert(Seq::<Seq<char>>::empty().push(trimmed(piece)) =~= seq![trimmed(piece)]);
}

proof fn lemma_filled(pieces: Seq<Seq<char>>, piece: Seq<char>, count: nat)
    requires
        count <= pieces.len(),
    ensures
        crate::config::filled_pieces(pieces.push(piece), count) == crate::config::filled_pieces(
            pieces,
            count,
        ),
    decreases count,
{
    if count > 0 {
        lemma_filled(pieces, piece, (count - 1) as nat);
        assert(pieces.push(piece)[count - 1] == pieces[count - 1]);
    }
}

/// Every origin is allowed by `*` alone. A list of origins is allowed where it is
/// not empty, does not hold `*`, and each origin can stand in a header: it holds
/// no control character but the tabulator.
pub proof fn origins_are_all_or_listed(value: Seq<char>)
    ensures
        ({
            let origins = origins_in(value);
            let plain = forall|i: int, k: int|
                0 <= i < origins.len() && 0 <= k < origins[i].len() ==> (#[trigger] origins[i][k] as u32
                    >= 32 && origins[i][k] as u32 != 127) || origins[i][k] == '\t';
            &&& origins == seq!["*"@] ==> origins_allowed(value) == Ok::<CorsModel, ConfigErrorModel>(
                CorsModel::Any,
            )
            &&& origins != seq!["*"@] && origins.len() > 0 && !origins.contains("*"@) && plain
                ==> origins_allowed(value) == Ok::<CorsModel, ConfigErrorModel>(
                CorsModel::List(origins),
            )
            &&& origins != seq!["*"@] && (origins.len() == 0 || origins.contains("*"@) || !plain)
                ==> (origins_allowed(value) matches Err(error) && error.variable
                == "QSY_API_CORS_ORIGINS"@)
        }),
{
    let origins = origins_in(value);
    lemma_first_refused(origins, 0);
    if crate::config::first_refused(origins, 0) is None {
        assert forall|i: int, k: int|
            0 <= i < origins.len() && 0 <= k < origins[i].len() implies (#[trigger] origins[i][k] as u32
            >= 32 && origins[i][k] as u32 != 127) || origins[i][k] == '\t' by {
            assert(crate::config::is_header_text(origins[i]));
            assert(crate::config::is_header_char(origins[i][k]));
        }
    } else {
        let i = choose|i: int|
            0 <= i < origins.len() && !crate::config::is_header_text(#[trigger] origins[i]);
        let k = choose|k: int|
            0 <= k < origins[i].len() && !crate::config::is_header_char(#[trigger] origins[i][k]);
        assert(!((origins[i][k] as u32 >= 32 && origins[i][k] as u32 != 127) || origins[i][k]
            == '\t'));
    }
}

proof fn lemma_first_refused(origins: Seq<Seq<char>>, from: nat)
    ensures
        crate::config::first_refused(origins, from) is None <==> forall|i: int|
            from <= i < origins.len() ==> crate::config::is_header_text(#[trigger] origins[i]),
    decreases origins.len() - from,
{
    if from < origins.len() && crate::config::is_header_text(origins[from as int]) {
        lemma_first_refused(origins, from + 1);
    }
}

/// The first origin that cannot stand in a header is the one that is refused, and
/// is shown with the reason.
pub proof fn the_first_unfit_origin_is_refused(
    value: Seq<char>,
    before: Seq<Seq<char>>,
    unfit: Seq<char>,
    after: Seq<Seq<char>>,
    at: int,
)
    requires
        origins_in(value) == before.push(unfit) + after,
        !origins_in(value).contains("*"@),
        0 <= at < unfit.len(),
        (unfit[at] as u32) < 32 || unfit[at] as u32 == 127,
        unfit[at] != '\t',
        forall|i: int, k: int|
            0 <= i < before.len() && 0 <= k < before[i].len() ==> (#[trigger] before[i][k] as u32
                >= 32 && before[i][k] as u32 != 127) || before[i][k] == '\t',
    ensures
        origins_allowed(value) == Err::<CorsModel, ConfigErrorModel>(
            ConfigErrorModel {
                variable: "QSY_API_CORS_ORIGINS"@,
                message: "invalid origin "@ + crate::config::debug_text(unfit) + ": "@
                    + "failed to parse header value"@,
            },
        ),
{
    let origins = origins_in(value);
    assert(origins[before.len() as int] == unfit);
    assert(!crate::config::is_header_char(unfit[at]));
    assert forall|i: int| 0 <= i < before.len() implies crate::config::is_header_text(
        #[trigger] origins[i],
    ) by {
        assert(origins[i] == before[i]);
        assert forall|k: int| 0 <= k < before[i].len() implies crate::config::is_header_char(
            #[trigger] before[i][k],
        ) by {}
    }
    lemma_refused_at(origins, 0, before.len());
    if origins == seq!["*"@] {
        assert(origins[0] == "*"@);
    }
}

proof fn lemma_refused_at(origins: Seq<Seq<char>>, from: nat, at: nat)
    requires
        from <= at < origins.len(),
        forall|i: int| from <= i < at ==> crate::config::is_header_text(#[trigger] origins[i]),
        !crate::config::is_header_text(origins[at as int]),
    ensures
        crate::config::first_refused(origins, from) == Some(origins[at as int]),
    decreases at - from,
{
    if from < at {
        assert(crate::config::is_header_text(origins[from as int]));
        lemma_refused_at(origins, from + 1, at);
    }
}

/// The configuration holds each setting, or else its default; the first setting
/// that is refused, in this order, is what is reported.
pub proof fn settings_are_taken_or_refused(environment: Environment)
    ensures
        ({
            let result = configured(environment);
            let base = public_base(
                match environment.public_download_base@ {
                    VariableModel::Text(text) => text,
                    _ => "/downloads"@,
                },
            );
            let origins = origins_allowed(
                match environment.cors_origins@ {
                    VariableModel::Text(text) => text,
                    _ => "*"@,
                },
            );
            match environment.bind_addr {
                Err(error) => result == Err::<ConfigModel, ConfigErrorModel>(
                    ConfigErrorModel { variable: "QSY_API_BIND_ADDR"@, message: error@ },
                ),
                Ok(address) => {
                    let accepted = body_limit(environment) is Ok && in_flight(environment) is Ok
                        && download_limit(environment) is Ok && base is Ok && origins is Ok;
                    &&& result is Ok <==> accepted
                    &&& result matches Err(error) ==> body_limit(environment) == Err::<
                        u64,
                        ConfigErrorModel,
                    >(error) || in_flight(environment) == Err::<u64, ConfigErrorModel>(error)
                        || download_limit(environment) == Err::<u64, ConfigErrorModel>(error)
                        || base == Err::<Seq<char>, ConfigErrorModel>(error) || origins == Err::<
                        CorsModel,
                        ConfigErrorModel,
                    >(error)
                    &&& body_limit(environment) matches Err(error) ==> result == Err::<
                        ConfigModel,
                        ConfigErrorModel,
                    >(error)
                    &&& result matches Ok(config) ==> {
                        &&& config.bind_addr == address@
                        &&& config.body_limit_bytes == body_limit(environment)->Ok_0
                        &&& config.max_in_flight == in_flight(environment)->Ok_0
                        &&& config.max_download_bytes == download_limit(environment)->Ok_0
                        &&& config.public_download_base == base->Ok_0
                        &&& config.cors_origins == origins->Ok_0
                        &&& environment.download_dir@ matches VariableModel::Text(text)
                            ==> config.download_dir == text
                        &&& !(environment.download_dir@ is Text) ==> config.download_dir
                            == "data/downloads"@
                        &&& environment.web_dir@ matches VariableModel::Text(text)
                            ==> config.web_dir == text
                        &&& !(environment.web_dir@ is Text) ==> config.web_dir == "dist"@
                    }
                },
            }
        }),
{
}

} // verus!
