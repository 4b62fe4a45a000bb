//! The tasks of the service: what is refused, how a task goes on, and what goes
//! wrong in it.
use crate::address::{
    image_download, media_read, validate_download_url, validate_image_download_url,
};
use crate::errors::{ErrorModel, ResolveError};
use crate::images::ShareImage;
use crate::naming::{
    extension_for_image, image_extension, image_file_name, image_name, part_file_name, part_name,
    video_file_name, video_name,
};
use crate::text::{decimal, decimal_of, join2, join3, owned, trim, trimmed};
use crate::weburl::{clone_optional, optional_text, UrlModel, WebUrl};
use vstd::prelude::*;
use vstd::utf8::encode_utf8;

verus! {

/// An answer that refuses a request.
#[derive(Debug)]
pub struct ApiError {
    pub status: u16,
    pub code: String,
    pub error: String,
}

impl View for ApiError {
    type V = ErrorModel;

    open spec fn view(&self) -> ErrorModel {
        ErrorModel { code: self.code@, error: self.error@, status: self.status }
    }
}

pub open spec fn refusal(status: u16, code: Seq<char>, error: Seq<char>) -> ErrorModel {
    ErrorModel { code, error, status }
}

/// The code for a request body that is refused with this status.
pub open spec fn body_code(status: u16) -> Seq<char> {
    if status == 413 {
        "payload_too_large"@
    } else if status == 415 {
        "unsupported_media_type"@
    } else {
        "invalid_json"@
    }
}

impl ApiError {
    pub fn new(status: u16, code: &str, error: &str) -> (made: ApiError)
        ensures
            made@ == refusal(status, code@, error@),
    {
        ApiError { status, code: owned(code), error: owned(error) }
    }

    /// A request body that could not be read, with the status and the text of
    /// the rejection.
    pub fn invalid_json(status: u16, text: &str) -> (made: ApiError)
        ensures
            made@ == refusal(status, body_code(status), text@),
    {
        let code = if status == 413 {
            "payload_too_large"
        } else if status == 415 {
            "unsupported_media_type"
        } else {
            "invalid_json"
        };
        ApiError::new(status, code, text)
    }

    pub fn task_not_found() -> (made: ApiError)
        ensures
            made@ == refusal(404, "task_not_found"@, "任务不存在或服务已重启。"@),
    {
        ApiError::new(404, "task_not_found", "任务不存在或服务已重启。")
    }

    pub fn invalid_file() -> (made: ApiError)
        ensures
            made@ == refusal(400, "invalid_file"@, "文件名无效。"@),
    {
        ApiError::new(400, "invalid_file", "文件名无效。")
    }

    pub fn file_not_found() -> (made: ApiError)
        ensures
            made@ == refusal(404, "file_not_found"@, "文件不存在。"@),
    {
        ApiError::new(404, "file_not_found", "文件不存在。")
    }

    pub fn page_not_found() -> (made: ApiError)
        ensures
            made@ == refusal(404, "not_found"@, "页面资源不存在。"@),
    {
        ApiError::new(404, "not_found", "页面资源不存在。")
    }

    pub fn download_failed() -> (made: ApiError)
        ensures
            made@ == refusal(500, "response_error"@, "无法创建下载响应。"@),
    {
        ApiError::new(500, "response_error", "无法创建下载响应。")
    }

    pub fn page_failed() -> (made: ApiError)
        ensures
            made@ == refusal(500, "response_error"@, "无法创建页面响应。"@),
    {
        ApiError::new(500, "response_error", "无法创建页面响应。")
    }
}

/// The most bytes that a request may hand in as a share text.
pub const MAX_SHARE_BYTES: usize = 16384;

/// Why no task is made of a share text.
pub open spec fn share_refused(text: Seq<char>) -> Option<ErrorModel> {
    if trimmed(text).len() == 0 {
        Some(refusal(400, "missing_input"@, "请粘贴分享链接。"@))
    } else if encode_utf8(text).len() > MAX_SHARE_BYTES {
        Some(refusal(413, "input_too_large"@, "分享内容过长。"@))
    } else {
        None
    }
}

/// Whether a task is made of a share text.
pub fn check_share_text(text: &str) -> (checked: Result<(), ApiError>)
    ensures
        match checked {
            Ok(_) => share_refused(text@) is None,
            Err(error) => share_refused(text@) == Some(error@),
        },
{
    let inner = trim(text);
    if inner.as_str().is_empty() {
        return Err(ApiError::new(400, "missing_input", "请粘贴分享链接。"));
    }
    if text.as_bytes().len() > MAX_SHARE_BYTES {
        return Err(ApiError::new(413, "input_too_large", "分享内容过长。"));
    }
    Ok(())
}

/// Why a request to a media server failed.
#[derive(Debug)]
pub struct HttpFailure {
    pub timeout: bool,
    pub connect: bool,
    pub text: String,
}

/// What goes wrong in a task.
#[derive(Debug)]
pub enum TaskError {
    Resolve(ResolveError),
    Http(HttpFailure),
    DownloadHttp(u16),
    InvalidContent,
    /// The text of the error with which a file could not be saved.
    Io(String),
    NoMedia,
    TooLarge,
    Internal(String),
}

/// What a [`TaskError`] holds.
pub enum TaskErrorModel {
    Resolve(ErrorModel),
    Http(bool, bool, Seq<char>),
    DownloadHttp(u16),
    InvalidContent,
    Io(Seq<char>),
    NoMedia,
    TooLarge,
    Internal(Seq<char>),
}

impl View for TaskError {
    type V = TaskErrorModel;

    open spec fn view(&self) -> TaskErrorModel {
        match self {
            TaskError::Resolve(error) => TaskErrorModel::Resolve(error@),
            TaskError::Http(failure) => TaskErrorModel::Http(
                failure.timeout,
                failure.connect,
                failure.text@,
            ),
            TaskError::DownloadHttp(status) => TaskErrorModel::DownloadHttp(*status),
            TaskError::InvalidContent => TaskErrorModel::InvalidContent,
            TaskError::Io(text) => TaskErrorModel::Io(text@),
            TaskError::NoMedia => TaskErrorModel::NoMedia,
            TaskError::TooLarge => TaskErrorModel::TooLarge,
            TaskError::Internal(text) => TaskErrorModel::Internal(text@),
        }
    }
}

/// What users are told of an error.
pub open spec fn public_message(error: TaskErrorModel) -> Seq<char> {
    match error {
        TaskErrorModel::Resolve(error) => error.error,
        TaskErrorModel::NoMedia => "未找到可下载的视频地址。"@,
        TaskErrorModel::TooLarge => "文件超过服务器允许的大小。"@,
        TaskErrorModel::Http(timeout, connect, text) => if timeout {
            "服务器下载媒体超时，请稍后重试。"@
        } else if connect {
            "服务器无法连接媒体 CDN，请检查网络或代理设置。"@
        } else {
            "服务器下载媒体失败："@ + text
        },
        TaskErrorModel::DownloadHttp(status) => "媒体 CDN 返回 HTTP "@ + decimal(status as nat)
            + "。"@,
        TaskErrorModel::InvalidContent => "媒体 CDN 返回了网页或 JSON，而不是视频文件。"@,
        TaskErrorModel::Io(text) => "服务器保存文件失败："@ + text,
        TaskErrorModel::Internal(text) => text,
    }
}

/// What users are told of an error.
pub fn public_error_message(error: &TaskError) -> (message: String)
    ensures
        message@ == public_message(error@),
{
    match error {
        TaskError::Resolve(error) => error.error.clone(),
        TaskError::NoMedia => owned("未找到可下载的视频地址。"),
        TaskError::TooLarge => owned("文件超过服务器允许的大小。"),
        TaskError::Http(failure) => if failure.timeout {
            owned("服务器下载媒体超时，请稍后重试。")
        } else if failure.connect {
            owned("服务器无法连接媒体 CDN，请检查网络或代理设置。")
        } else {
            join2("服务器下载媒体失败：", failure.text.as_str())
        },
        TaskError::DownloadHttp(status) => {
            let digits = decimal_of(*status as u64);
            join3("媒体 CDN 返回 HTTP ", digits.as_str(), "。")
        },
        TaskError::InvalidContent => owned("媒体 CDN 返回了网页或 JSON，而不是视频文件。"),
        TaskError::Io(text) => join2("服务器保存文件失败：", text.as_str()),
        TaskError::Internal(text) => text.clone(),
    }
}

/// What the log says of an error.
pub open spec fn log_message(error: TaskErrorModel) -> Seq<char> {
    match error {
        TaskErrorModel::Resolve(error) => error.error,
        TaskErrorModel::Http(_, _, text) => text,
        TaskErrorModel::DownloadHttp(status) => "media CDN returned HTTP "@ + decimal(
            status as nat,
        ),
        TaskErrorModel::InvalidContent => "media CDN returned non-media content"@,
        TaskErrorModel::Io(text) => text,
        TaskErrorModel::NoMedia => "no media URL in resolver response"@,
        TaskErrorModel::TooLarge => "download exceeds configured size limit"@,
        TaskErrorModel::Internal(text) => text,
    }
}

impl TaskError {
    /// What the log says of the error.
    pub fn to_text(&self) -> (text: String)
        ensures
            text@ == log_message(self@),
    {
        match self {
            TaskError::Resolve(error) => error.message(),
            TaskError::Http(failure) => failure.text.clone(),
            TaskError::DownloadHttp(status) => {
                let digits = decimal_of(*status as u64);
                join2("media CDN returned HTTP ", digits.as_str())
            },
            TaskError::InvalidContent => owned("media CDN returned non-media content"),
            TaskError::Io(text) => text.clone(),
            TaskError::NoMedia => owned("no media URL in resolver response"),
            TaskError::TooLarge => owned("download exceeds configured size limit"),
            TaskError::Internal(text) => text.clone(),
        }
    }
}

#[derive(Debug, Clone, Copy, PartialEq, Eq, Structural)]
pub enum TaskStatus {
    Queued,
    Processing,
    Completed,
    Failed,
}

/// A file that a task saved.
#[derive(Debug)]
pub struct TaskFile {
    pub kind: &'static str,
    pub name: String,
    pub download_url: String,
    pub index: usize,
}

/// What a [`TaskFile`] holds.
pub struct FileModel {
    pub kind: Seq<char>,
    pub name: Seq<char>,
    pub download_url: Seq<char>,
    pub index: nat,
}

impl View for TaskFile {
    type V = FileModel;

    open spec fn view(&self) -> FileModel {
        FileModel {
            kind: self.kind@,
            name: self.name@,
            download_url: self.download_url@,
            index: self.index as nat,
        }
    }
}

pub open spec fn files_model(files: Seq<TaskFile>) -> Seq<FileModel> {
    files.map_values(|file: TaskFile| file@)
}

/// A task, as users are told of it.
#[derive(Debug)]
pub struct TaskRecord {
    id: u128,
    status: TaskStatus,
    stage: String,
    /// In percent.
    progress: Option<u8>,
    title: Option<String>,
    video_id: Option<String>,
    download_url: Option<String>,
    files: Vec<TaskFile>,
    error: Option<String>,
}

/// What a [`TaskRecord`] holds.
#[verifier::ext_equal]
pub struct TaskModel {
    pub id: u128,
    pub status: TaskStatus,
    pub stage: Seq<char>,
    pub progress: Option<u8>,
    pub title: Option<Seq<char>>,
    pub video_id: Option<Seq<char>>,
    pub download_url: Option<Seq<char>>,
    pub files: Seq<FileModel>,
    pub error: Option<Seq<char>>,
}

impl View for TaskRecord {
    type V = TaskModel;

    closed spec fn view(&self) -> TaskModel {
        TaskModel {
            id: self.id,
            status: self.status,
            stage: self.stage@,
            progress: self.progress,
            title: optional_text(self.title),
            video_id: optional_text(self.video_id),
            download_url: optional_text(self.download_url),
            files: files_model(self.files@),
            error: optional_text(self.error),
        }
    }
}

/// Where a file is offered.
pub open spec fn offered_at(base: Seq<char>, name: Seq<char>) -> Seq<char> {
    base + "/"@ + name
}

/// The progress after the image at a place among `count`.
pub open spec fn image_progress(index: nat, count: nat) -> nat {
    10 + (index + 1) * 90 / count
}

impl TaskModel {
    /// The progress is a percentage; a completed task is at its end, and only a
    /// failed task has an error and no progress to show for it.
    pub open spec fn is_sound(self) -> bool {
        &&& self.progress matches Some(progress) ==> progress <= 100
        &&& self.status == TaskStatus::Completed ==> self.progress == Some(100u8)
        &&& self.error is Some ==> self.status == TaskStatus::Failed
        &&& self.status == TaskStatus::Failed ==> self.error is Some && self.progress is None
    }

    pub open spec fn is_finished(self) -> bool {
        self.status == TaskStatus::Completed || self.status == TaskStatus::Failed
    }
}

/// A task that has just been made.
pub open spec fn queued(id: u128) -> TaskModel {
    TaskModel {
        id,
        status: TaskStatus::Queued,
        stage: "等待后台处理"@,
        progress: Some(0),
        title: None,
        video_id: None,
        download_url: None,
        files: Seq::empty(),
        error: None,
    }
}

/// What happens in a task.
pub enum TaskEvent {
    Started,
    Resolved { title: Option<String>, video_id: String },
    VideoStarted,
    VideoProgress(Option<u8>),
    /// The video was saved under this name.
    VideoSaved(String),
    /// So many images are to be saved.
    ImagesStarted(usize),
    /// The image at a place among so many was saved under this name.
    ImageSaved { name: String, index: usize, count: usize },
    ImagesSaved(usize),
    /// The task failed, and users are told this.
    Failed(String),
}

/// What a [`TaskEvent`] holds.
pub enum EventModel {
    Started,
    Resolved { title: Option<Seq<char>>, video_id: Seq<char> },
    VideoStarted,
    VideoProgress(Option<u8>),
    VideoSaved(Seq<char>),
    ImagesStarted(nat),
    ImageSaved { name: Seq<char>, index: nat, count: nat },
    ImagesSaved(nat),
    Failed(Seq<char>),
}

impl View for TaskEvent {
    type V = EventModel;

    open spec fn view(&self) -> EventModel {
        match self {
            TaskEvent::Started => EventModel::Started,
            TaskEvent::Resolved { title, video_id } => EventModel::Resolved {
                title: optional_text(*title),
                video_id: video_id@,
            },
            TaskEvent::VideoStarted => EventModel::VideoStarted,
            TaskEvent::VideoProgress(progress) => EventModel::VideoProgress(*progress),
            TaskEvent::VideoSaved(name) => EventModel::VideoSaved(name@),
            TaskEvent::ImagesStarted(count) => EventModel::ImagesStarted(*count as nat),
            TaskEvent::ImageSaved { name, index, count } => EventModel::ImageSaved {
                name: name@,
                index: *index as nat,
                count: *count as nat,
            },
            TaskEvent::ImagesSaved(count) => EventModel::ImagesSaved(*count as nat),
            TaskEvent::Failed(message) => EventModel::Failed(message@),
        }
    }
}

impl EventModel {
    /// An image has a place among as many as there are.
    pub open spec fn is_possible(self) -> bool {
        self matches EventModel::ImageSaved { index, count, .. } ==> index < count
    }
}

/// The task after an event. Files are offered below `base`.
pub open spec fn after_event(task: TaskModel, event: EventModel, base: Seq<char>) -> TaskModel {
    match event {
        EventModel::Started => TaskModel {
            status: TaskStatus::Processing,
            stage: "正在解析分享链接"@,
            progress: Some(8),
            ..task
        },
        EventModel::Resolved { title, video_id } => TaskModel {
            title,
            video_id: Some(video_id),
            ..task
        },
        EventModel::VideoStarted => TaskModel {
            stage: "正在下载视频到服务器"@,
            progress: Some(15),
            ..task
        },
        EventModel::VideoProgress(progress) => TaskModel { progress, ..task },
        EventModel::VideoSaved(name) => TaskModel {
            status: TaskStatus::Completed,
            stage: "视频文件已准备好"@,
            progress: Some(100),
            download_url: Some(offered_at(base, name)),
            files: task.files.push(
                FileModel {
                    kind: "video"@,
                    name,
                    download_url: offered_at(base, name),
                    index: 0,
                },
            ),
            ..task
        },
        EventModel::ImagesStarted(count) => TaskModel {
            stage: "正在下载 "@ + decimal(count) + " 张图片到服务器"@,
            progress: Some(10),
            ..task
        },
        EventModel::ImageSaved { name, index, count } => TaskModel {
            files: task.files.push(
                FileModel {
                    kind: "image"@,
                    name,
                    download_url: offered_at(base, name),
                    index,
                },
            ),
            progress: Some(image_progress(index, count) as u8),
            ..task
        },
        EventModel::ImagesSaved(count) => TaskModel {
            status: TaskStatus::Completed,
            stage: decimal(count) + " 张图片已准备好"@,
            progress: Some(100),
            ..task
        },
        EventModel::Failed(message) => TaskModel {
            status: TaskStatus::Failed,
            stage: "处理失败"@,
            progress: None,
            error: Some(message),
            ..task
        },
    }
}

/// The progress after an image is a percentage, is 100 after the last image,
/// and does not fall from one image to the next.
pub proof fn image_progress_rises_to_the_end(index: nat, count: nat)
    requires
        index < count,
    ensures
        10 <= image_progress(index, count) <= 100,
        index + 1 == count ==> image_progress(index, count) == 100,
        index + 1 < count ==> image_progress(index, count) <= image_progress(index + 1, count),
{
    let done = (index + 1) * 90;
    let whole = count * 90;
    assert(whole / count == 90) by (nonlinear_arith)
        requires
            whole == count * 90,
            count > 0,
    ;
    assert(done <= whole) by (nonlinear_arith)
        requires
            done == (index + 1) * 90,
            whole == count * 90,
            index + 1 <= count,
    ;
    vstd::arithmetic::div_mod::lemma_div_is_ordered(done as int, whole as int, count as int);
    vstd::arithmetic::div_mod::lemma_div_is_ordered(
        done as int,
        ((index + 2) * 90) as int,
        count as int,
    );
    vstd::arithmetic::div_mod::lemma_div_pos_is_pos(done as int, count as int);
}

/// A task that is not finished stays sound, whatever happens in it.
pub proof fn tasks_stay_sound(task: TaskModel, event: EventModel, base: Seq<char>)
    requires
        task.is_sound(),
        !task.is_finished(),
        event.is_possible(),
        event matches EventModel::VideoProgress(Some(progress)) ==> progress <= 100,
    ensures
        after_event(task, event, base).is_sound(),
        after_event(task, event, base).id == task.id,
        task.files.is_prefix_of(after_event(task, event, base).files),
        queued(task.id).is_sound(),
{
    if let EventModel::ImageSaved { index, count, .. } = event {
        image_progress_rises_to_the_end(index, count);
    }
}

impl TaskRecord {
    /// A task that has just been made.
    pub fn queued(id: u128) -> (task: TaskRecord)
        ensures
            task@ == queued(id),
    {
        let task = TaskRecord {
            id,
            status: TaskStatus::Queued,
            stage: owned("等待后台处理"),
            progress: Some(0),
            title: None,
            video_id: None,
            download_url: None,
            files: Vec::new(),
            error: None,
        };
        assert(files_model(task.files@) =~= Seq::empty());
        task
    }

    fn add_file(&mut self, kind: &'static str, name: String, base: &str, index: usize)
        ensures
            final(self)@ == (TaskModel {
                files: old(self)@.files.push(
                    FileModel {
                        kind: kind@,
                        name: name@,
                        download_url: offered_at(base@, name@),
                        index: index as nat,
                    },
                ),
                ..old(self)@
            }),
    {
        let ghost before = self@.files;
        let download_url = join3(base, "/", name.as_str());
        let file = TaskFile { kind, name, download_url, index };
        let ghost model = file@;
        self.files.push(file);
        assert(files_model(self.files@) =~= before.push(model));
    }

    /// Notes what happened in the task; see [`after_event`].
    pub fn apply(&mut self, event: TaskEvent, base: &str)
        requires
            event@.is_possible(),
        ensures
            final(self)@ == after_event(old(self)@, event@, base@),
    {
        match event {
            TaskEvent::Started => {
                self.status = TaskStatus::Processing;
                self.stage = owned("正在解析分享链接");
                self.progress = Some(8);
            },
            TaskEvent::Resolved { title, video_id } => {
                self.title = title;
                self.video_id = Some(video_id);
            },
            TaskEvent::VideoStarted => {
                self.stage = owned("正在下载视频到服务器");
                self.progress = Some(15);
            },
            TaskEvent::VideoProgress(progress) => {
                self.progress = progress;
            },
            TaskEvent::VideoSaved(name) => {
                self.status = TaskStatus::Completed;
                self.stage = owned("视频文件已准备好");
                self.progress = Some(100);
                self.download_url = Some(join3(base, "/", name.as_str()));
                self.add_file("video", name, base, 0);
            },
            TaskEvent::ImagesStarted(count) => {
                let digits = decimal_of(count as u64);
                self.stage = join3("正在下载 ", digits.as_str(), " 张图片到服务器");
                self.progress = Some(10);
            },
            TaskEvent::ImageSaved { name, index, count } => {
                proof {
                    image_progress_rises_to_the_end(index as nat, count as nat);
                }
                let done: u128 = (index as u128 + 1) * 90 / count as u128;
                assert(done == (index + 1) * 90 / count as int);
                self.progress = Some((10 + done) as u8);
                self.add_file("image", name, base, index);
            },
            TaskEvent::ImagesSaved(count) => {
                let digits = decimal_of(count as u64);
                self.status = TaskStatus::Completed;
                self.stage = join2(digits.as_str(), " 张图片已准备好");
                self.progress = Some(100);
            },
            TaskEvent::Failed(message) => {
                self.status = TaskStatus::Failed;
                self.stage = owned("处理失败");
                self.progress = None;
                self.error = Some(message);
            },
        }
    }

    pub fn id(&self) -> (id: u128)
        ensures
            id == self@.id,
    {
        self.id
    }

    pub fn status(&self) -> (status: TaskStatus)
        ensures
            status == self@.status,
    {
        self.status
    }

    pub fn stage(&self) -> (stage: &str)
        ensures
            stage@ == self@.stage,
    {
        self.stage.as_str()
    }

    pub fn progress(&self) -> (progress: Option<u8>)
        ensures
            progress == self@.progress,
    {
        self.progress
    }

    pub fn title(&self) -> (title: Option<String>)
        ensures
            optional_text(title) == self@.title,
    {
        clone_optional(&self.title)
    }

    pub fn video_id(&self) -> (video_id: Option<String>)
        ensures
            optional_text(video_id) == self@.video_id,
    {
        clone_optional(&self.video_id)
    }

    pub fn download_url(&self) -> (url: Option<String>)
        ensures
            optional_text(url) == self@.download_url,
    {
        clone_optional(&self.download_url)
    }

    pub fn files(&self) -> (files: &Vec<TaskFile>)
        ensures
            files_model(files@) == self@.files,
    {
        &self.files
    }

    pub fn error(&self) -> (error: Option<String>)
        ensures
            optional_text(error) == self@.error,
    {
        clone_optional(&self.error)
    }
}

/// The names that a file is saved under, at the end and until then.
#[derive(Debug)]
pub struct FilePlan {
    pub name: String,
    pub part: String,
}

/// What a [`FilePlan`] holds.
pub struct PlanModel {
    pub name: Seq<char>,
    pub part: Seq<char>,
}

impl View for FilePlan {
    type V = PlanModel;

    open spec fn view(&self) -> PlanModel {
        PlanModel { name: self.name@, part: self.part@ }
    }
}

pub open spec fn file_plan(name: Seq<char>, id: u128) -> PlanModel {
    PlanModel { name, part: part_name(name, id) }
}

/// How the video of a task is saved: there must be one, at an address that media
/// may be downloaded from.
pub open spec fn video_planned(media_url: Option<Seq<char>>, safe: Seq<char>, id: u128) -> Result<
    PlanModel,
    TaskErrorModel,
> {
    match media_url {
        None => Err(TaskErrorModel::NoMedia),
        Some(url) => match media_read(url, None) {
            Err(error) => Err(TaskErrorModel::Resolve(error)),
            Ok(_) => Ok(file_plan(video_name(safe, id), id)),
        },
    }
}

/// How the video of a task is saved; see [`video_planned`].
pub fn plan_video(media_url: &Option<String>, safe: &str, id: u128) -> (plan: Result<
    FilePlan,
    TaskError,
>)
    ensures
        match plan {
            Ok(plan) => video_planned(optional_text(*media_url), safe@, id) == Ok::<
                PlanModel,
                TaskErrorModel,
            >(plan@),
            Err(error) => video_planned(optional_text(*media_url), safe@, id) == Err::<
                PlanModel,
                TaskErrorModel,
            >(error@),
        },
{
    match media_url {
        None => Err(TaskError::NoMedia),
        Some(url) => match validate_download_url(url.as_str()) {
            Err(error) => Err(TaskError::Resolve(error)),
            Ok(_) => {
                let name = video_file_name(safe, id);
                let part = part_file_name(name.as_str(), id);
                Ok(FilePlan { name, part })
            },
        },
    }
}

/// What a task saves.
pub enum TaskPlan {
    Video(FilePlan),
    /// So many images.
    Images(usize),
}

/// What a [`TaskPlan`] holds.
pub enum WorkModel {
    Video(PlanModel),
    Images(nat),
}

impl View for TaskPlan {
    type V = WorkModel;

    open spec fn view(&self) -> WorkModel {
        match self {
            TaskPlan::Video(plan) => WorkModel::Video(plan@),
            TaskPlan::Images(count) => WorkModel::Images(*count as nat),
        }
    }
}

/// What a task saves: the images of a post that has any, or else its video.
pub open spec fn task_planned(
    images: nat,
    media_url: Option<Seq<char>>,
    safe: Seq<char>,
    id: u128,
) -> Result<WorkModel, TaskErrorModel> {
    if images > 0 {
        Ok(WorkModel::Images(images))
    } else {
        match video_planned(media_url, safe, id) {
            Ok(plan) => Ok(WorkModel::Video(plan)),
            Err(error) => Err(error),
        }
    }
}

/// What a task saves; see [`task_planned`].
pub fn plan_task(
    images: &Vec<ShareImage>,
    media_url: &Option<String>,
    safe: &str,
    id: u128,
) -> (plan: Result<TaskPlan, TaskError>)
    ensures
        match plan {
            Ok(plan) => task_planned(images@.len(), optional_text(*media_url), safe@, id) == Ok::<
                WorkModel,
                TaskErrorModel,
            >(plan@),
            Err(error) => task_planned(images@.len(), optional_text(*media_url), safe@, id)
                == Err::<WorkModel, TaskErrorModel>(error@),
        },
{
    if images.len() > 0 {
        return Ok(TaskPlan::Images(images.len()));
    }
    match plan_video(media_url, safe, id) {
        Ok(plan) => Ok(TaskPlan::Video(plan)),
        Err(error) => Err(error),
    }
}

/// Where an image is downloaded from, and how it is saved.
pub struct ImagePlan {
    pub url: WebUrl,
    pub file: FilePlan,
}

/// How an image of a task is saved: its address must be one that images may be
/// downloaded from.
pub open spec fn image_planned(address: Seq<char>, index: nat, safe: Seq<char>, id: u128) -> Result<
    (UrlModel, PlanModel),
    TaskErrorModel,
> {
    match image_download(address) {
        Err(error) => Err(TaskErrorModel::Resolve(error)),
        Ok(url) => Ok(
            (url, file_plan(image_name(safe, id, index, image_extension(url)), id)),
        ),
    }
}

/// How an image of a task is saved; see [`image_planned`].
pub fn plan_image(image: &ShareImage, safe: &str, id: u128) -> (plan: Result<ImagePlan, TaskError>)
    requires
        image@.index < usize::MAX,
    ensures
        match plan {
            Ok(plan) => image_planned(image@.url, image@.index, safe@, id) == Ok::<
                (UrlModel, PlanModel),
                TaskErrorModel,
            >((plan.url@, plan.file@)),
            Err(error) => image_planned(image@.url, image@.index, safe@, id) == Err::<
                (UrlModel, PlanModel),
                TaskErrorModel,
            >(error@),
        },
{
    match validate_image_download_url(image.url.as_str()) {
        Err(error) => Err(TaskError::Resolve(error)),
        Ok(url) => {
            let extension = extension_for_image(&url);
            let name = image_file_name(safe, id, image.index, extension.as_str());
            let part = part_file_name(name.as_str(), id);
            Ok(ImagePlan { url, file: FilePlan { name, part } })
        },
    }
}

} // verus!
