//! The configuration, the tasks and the downloads of the service.
use share_resolver::config::{
    bound_number, normalize_public_base, parse_bounded_env, refuse_origin, ApiConfig, CorsOrigins,
    Environment, Variable,
};
use share_resolver::downloads::{download_types, DownloadFetch, Kind, Meter};
use share_resolver::errors::ConfigError;
use share_resolver::fetch::Reply;
use share_resolver::files::{
    cache_control, content_disposition, download_content_type, page_content_type, safe_asset,
    safe_file_name,
};
use share_resolver::images::ShareImage;
use share_resolver::naming::{
    image_file_name, part_file_name, safe_video_id, status_url, task_video_id, video_file_name,
};
use share_resolver::tasks::{
    check_share_text, plan_image, plan_task, plan_video, public_error_message, ApiError,
    HttpFailure, TaskError, TaskEvent, TaskPlan, TaskRecord, TaskStatus,
};
use share_resolver::weburl::WebUrl;
use share_resolver::work::{RunStep, TaskRun};

const TASK: u128 = 0x0123_4567_89ab_cdef_0123_4567_89ab_cdef;

fn text(value: &str) -> Variable {
    Variable::Text(value.to_string())
}

fn environment() -> Environment {
    Environment {
        bind_addr: Ok("0.0.0.0:8080".to_string()),
        body_limit_bytes: Variable::Missing,
        max_in_flight: Variable::Missing,
        max_download_bytes: Variable::Missing,
        download_dir: Variable::Missing,
        web_dir: Variable::Missing,
        public_download_base: Variable::Missing,
        cors_origins: Variable::Missing,
    }
}

fn reply(status: u16, location: Option<&str>, content_type: Option<&str>) -> Reply {
    Reply {
        status,
        location: location.map(str::to_string),
        content_type: content_type.map(str::to_string),
        content_length: None,
    }
}

fn message(error: ConfigError) -> String {
    error.to_text()
}

#[test]
fn public_download_base_is_restricted_to_a_safe_path() {
    assert_eq!(normalize_public_base("/downloads/").unwrap(), "/downloads");
    assert!(normalize_public_base("downloads").is_err());
    assert!(normalize_public_base("/../private").is_err());
}

#[test]
fn task_file_name_only_uses_safe_video_id_characters() {
    let source = "12/../ab-CD";
    let safe = safe_video_id(source);
    assert_eq!(safe, "12abCD");
}

#[test]
fn public_bases_are_trimmed_and_refused_with_queries() {
    assert_eq!(normalize_public_base("  /files// ").unwrap(), "/files");
    assert!(normalize_public_base("/").is_err());
    assert!(normalize_public_base("/files?x").is_err());
    let error = normalize_public_base("/files#x").unwrap_err();
    assert_eq!(
        message(error),
        "invalid QSY_API_PUBLIC_DOWNLOAD_BASE: must be an absolute URL path without '..', query, or fragment"
    );
}

#[test]
fn a_safe_base_is_left_as_it_is() {
    let base = normalize_public_base(" /a/b/ ").unwrap();
    assert_eq!(normalize_public_base(&base).unwrap(), base);
    let spaced = normalize_public_base("/a /").unwrap();
    assert_eq!(spaced, "/a ");
    assert_eq!(normalize_public_base(&spaced).unwrap(), "/a");
}

#[test]
fn the_default_configuration_is_complete() {
    let config = ApiConfig::from_env(&environment()).ok().unwrap();
    assert_eq!(config.bind_addr, "0.0.0.0:8080");
    assert_eq!(config.body_limit_bytes, 64 * 1024);
    assert_eq!(config.max_in_flight, 8);
    assert_eq!(config.max_download_bytes, 2 * 1024 * 1024 * 1024);
    assert_eq!(config.download_dir, "data/downloads");
    assert_eq!(config.web_dir, "dist");
    assert_eq!(config.public_download_base, "/downloads");
    assert!(matches!(config.cors_origins, CorsOrigins::Any));
}

#[test]
fn variables_are_refused_with_their_names() {
    let mut refused = environment();
    refused.bind_addr = Err("invalid socket address syntax".to_string());
    assert_eq!(
        message(ApiConfig::from_env(&refused).err().unwrap()),
        "invalid QSY_API_BIND_ADDR: invalid socket address syntax"
    );

    let mut refused = environment();
    refused.body_limit_bytes = text("1023");
    assert_eq!(
        message(ApiConfig::from_env(&refused).err().unwrap()),
        "invalid QSY_API_BODY_LIMIT_BYTES: must be between 1024 and 1048576"
    );

    let mut refused = environment();
    refused.max_in_flight = text("many");
    assert_eq!(
        message(ApiConfig::from_env(&refused).err().unwrap()),
        "invalid QSY_API_MAX_IN_FLIGHT: invalid digit found in string"
    );

    let mut refused = environment();
    refused.max_download_bytes = Variable::Unreadable("no text".to_string());
    assert_eq!(
        message(ApiConfig::from_env(&refused).err().unwrap()),
        "invalid QSY_API_MAX_DOWNLOAD_BYTES: no text"
    );

    let mut refused = environment();
    refused.public_download_base = text("downloads");
    assert!(ApiConfig::from_env(&refused).is_err());

    let mut refused = environment();
    refused.cors_origins = text("*, https://a.example");
    assert!(ApiConfig::from_env(&refused).is_err());
}

#[test]
fn numbers_are_read_within_their_bounds() {
    assert_eq!(parse_bounded_env("N", &Variable::Missing, 8, 1, 128).unwrap(), 8);
    assert_eq!(parse_bounded_env("N", &text("+128"), 8, 1, 128).unwrap(), 128);
    assert_eq!(
        message(parse_bounded_env("N", &text("129"), 8, 1, 128).unwrap_err()),
        "invalid N: must be between 1 and 128"
    );
    assert_eq!(
        message(parse_bounded_env("N", &text(""), 8, 1, 128).unwrap_err()),
        "invalid N: cannot parse integer from empty string"
    );
    assert_eq!(bound_number("N", Ok(7), 1, 128).unwrap(), 7);
    assert_eq!(message(bound_number("N", Err("no".to_string()), 1, 2).unwrap_err()), "invalid N: no");
}

#[test]
fn origins_are_any_or_a_list() {
    assert!(matches!(CorsOrigins::parse(" * ,"), Ok(CorsOrigins::Any)));
    match CorsOrigins::parse("https://a.example, https://b.example,") {
        Ok(CorsOrigins::List(origins)) => {
            assert_eq!(origins, ["https://a.example", "https://b.example"])
        }
        _ => panic!("a list of origins"),
    }
    let error = CorsOrigins::parse(" , ").err().unwrap();
    assert_eq!(
        message(error),
        "invalid QSY_API_CORS_ORIGINS: use '*' alone or provide a comma-separated origin list"
    );
    let error = CorsOrigins::parse("https://a.example,b\u{7f}").err().unwrap();
    assert_eq!(
        message(error),
        "invalid QSY_API_CORS_ORIGINS: invalid origin \"b\\u{7f}\": failed to parse header value"
    );
    assert_eq!(
        message(refuse_origin("\"x\"", "no")),
        "invalid QSY_API_CORS_ORIGINS: invalid origin \"x\": no"
    );
}

#[test]
fn file_names_are_short_visible_and_of_known_kinds() {
    assert!(safe_file_name("qsy-1-01234567.mp4"));
    assert!(safe_file_name("a.b.JPEG"));
    for name in ["", ".mp4", "a.txt", "a/b.mp4", "..mp4", "视频.mp4", "mp4x"] {
        assert!(!safe_file_name(name), "{name}");
    }
    assert!(safe_file_name(&format!("{}.mp4", "a".repeat(156))));
    assert!(!safe_file_name(&format!("{}.mp4", "a".repeat(157))));
}

#[test]
fn files_are_sent_as_their_types() {
    for (name, content_type) in [
        ("a.mp4", "video/mp4"),
        ("a.PNG", "image/png"),
        ("a.webp", "image/webp"),
        ("a.avif", "image/avif"),
        ("a.gif", "image/gif"),
        ("a.jpg", "image/jpeg"),
        ("a.jpeg", "image/jpeg"),
        ("a.txt", "application/octet-stream"),
    ] {
        assert_eq!(download_content_type(name), content_type);
    }
    for (extension, content_type) in [
        ("html", "text/html; charset=utf-8"),
        ("js", "text/javascript; charset=utf-8"),
        ("css", "text/css; charset=utf-8"),
        ("svg", "image/svg+xml"),
        ("png", "image/png"),
        ("jpg", "image/jpeg"),
        ("jpeg", "image/jpeg"),
        ("webp", "image/webp"),
        ("ico", "image/x-icon"),
        ("json", "application/json; charset=utf-8"),
        ("HTML", "application/octet-stream"),
    ] {
        assert_eq!(page_content_type(extension), content_type);
    }
    assert_eq!(content_disposition("a.mp4"), "attachment; filename=\"a.mp4\"");
    assert_eq!(cache_control(true), "public, max-age=31536000, immutable");
    assert_eq!(cache_control(false), "no-cache");
}

#[test]
fn assets_are_looked_up_below_their_directory() {
    assert!(safe_asset("assets/index-1.js"));
    for path in ["", "/a", "a/", "a//b", "../a", "a/./b", "a b"] {
        assert!(!safe_asset(path), "{path}");
    }
}

#[test]
fn tasks_are_known_by_their_digits() {
    assert_eq!(status_url(TASK), "/api/v1/tasks/01234567-89ab-cdef-0123-456789abcdef");
    assert_eq!(task_video_id(&None, TASK), "0123456789abcdef0123456789abcdef");
    assert_eq!(task_video_id(&Some("7".to_string()), TASK), "7");
}

#[test]
fn saved_files_have_names_that_are_offered() {
    let video = video_file_name("7657414745401989745", TASK);
    assert_eq!(video, "qsy-7657414745401989745-01234567.mp4");
    assert!(safe_file_name(&video));
    assert_eq!(video_file_name("", TASK), "qsy-media-01234567.mp4");
    let image = image_file_name("12", TASK, 9, "webp");
    assert_eq!(image, "qsy-12-01234567-10.webp");
    assert!(safe_file_name(&image));
    assert_eq!(
        part_file_name(&image, TASK),
        "qsy-12-01234567-10.webp.0123456789abcdef0123456789abcdef.part"
    );
    assert!(!safe_file_name(&video_file_name(&"1".repeat(144), TASK)));
    assert!(safe_file_name(&video_file_name(&"1".repeat(143), TASK)));
}

#[test]
fn share_texts_are_checked_before_a_task_is_made() {
    assert!(check_share_text("https://v.douyin.com/a/").is_ok());
    let error = check_share_text(" \n").unwrap_err();
    assert_eq!((error.status, error.code.as_str()), (400, "missing_input"));
    assert_eq!(error.error, "请粘贴分享链接。");
    let error = check_share_text(&"x".repeat(16 * 1024 + 1)).unwrap_err();
    assert_eq!((error.status, error.code.as_str()), (413, "input_too_large"));
    assert!(check_share_text(&"x".repeat(16 * 1024)).is_ok());
}

#[test]
fn refused_bodies_have_codes_by_status() {
    assert_eq!(ApiError::invalid_json(413, "big").code, "payload_too_large");
    assert_eq!(ApiError::invalid_json(415, "kind").code, "unsupported_media_type");
    let error = ApiError::invalid_json(422, "shape");
    assert_eq!((error.status, error.code.as_str(), error.error.as_str()), (422, "invalid_json", "shape"));
    assert_eq!(ApiError::task_not_found().status, 404);
    assert_eq!(ApiError::invalid_file().code, "invalid_file");
    assert_eq!(ApiError::file_not_found().code, "file_not_found");
    assert_eq!(ApiError::page_not_found().code, "not_found");
    assert_eq!(ApiError::download_failed().status, 500);
    assert_eq!(ApiError::page_failed().error, "无法创建页面响应。");
}

#[test]
fn errors_have_messages_for_users_and_for_the_log() {
    let failure = |timeout: bool, connect: bool| {
        TaskError::Http(HttpFailure { timeout, connect, text: "broken".to_string() })
    };
    for (error, public, log) in [
        (TaskError::NoMedia, "未找到可下载的视频地址。", "no media URL in resolver response"),
        (TaskError::TooLarge, "文件超过服务器允许的大小。", "download exceeds configured size limit"),
        (failure(true, true), "服务器下载媒体超时，请稍后重试。", "broken"),
        (failure(false, true), "服务器无法连接媒体 CDN，请检查网络或代理设置。", "broken"),
        (failure(false, false), "服务器下载媒体失败：broken", "broken"),
        (TaskError::DownloadHttp(403), "媒体 CDN 返回 HTTP 403。", "media CDN returned HTTP 403"),
        (
            TaskError::InvalidContent,
            "媒体 CDN 返回了网页或 JSON，而不是视频文件。",
            "media CDN returned non-media content",
        ),
        (TaskError::Io("full".to_string()), "服务器保存文件失败：full", "full"),
        (TaskError::Internal("closed".to_string()), "closed", "closed"),
    ] {
        assert_eq!(public_error_message(&error), public);
        assert_eq!(error.to_text(), log);
    }
}

#[test]
fn a_video_task_goes_from_the_queue_to_its_file() {
    let mut task = TaskRecord::queued(TASK);
    assert_eq!(task.id(), TASK);
    assert_eq!(task.status(), TaskStatus::Queued);
    assert_eq!((task.stage(), task.progress()), ("等待后台处理", Some(0)));
    task.apply(TaskEvent::Started, "/downloads");
    assert_eq!(task.status(), TaskStatus::Processing);
    assert_eq!((task.stage(), task.progress()), ("正在解析分享链接", Some(8)));
    task.apply(
        TaskEvent::Resolved { title: Some("T".to_string()), video_id: "7".to_string() },
        "/downloads",
    );
    assert_eq!(task.title().as_deref(), Some("T"));
    assert_eq!(task.video_id().as_deref(), Some("7"));
    task.apply(TaskEvent::VideoStarted, "/downloads");
    assert_eq!(task.progress(), Some(15));
    task.apply(TaskEvent::VideoProgress(Some(57)), "/downloads");
    assert_eq!(task.progress(), Some(57));
    task.apply(TaskEvent::VideoSaved("a.mp4".to_string()), "/downloads");
    assert_eq!(task.status(), TaskStatus::Completed);
    assert_eq!(task.progress(), Some(100));
    assert_eq!(task.download_url().as_deref(), Some("/downloads/a.mp4"));
    assert_eq!(task.files().len(), 1);
    assert_eq!(task.files()[0].kind, "video");
    assert_eq!(task.files()[0].download_url, "/downloads/a.mp4");
    assert!(task.error().is_none());
}

#[test]
fn an_image_task_saves_its_images_one_by_one() {
    let mut task = TaskRecord::queued(TASK);
    task.apply(TaskEvent::ImagesStarted(3), "/d");
    assert_eq!((task.stage(), task.progress()), ("正在下载 3 张图片到服务器", Some(10)));
    for (index, progress) in [(0, 40), (1, 70), (2, 100)] {
        task.apply(
            TaskEvent::ImageSaved { name: format!("{index}.jpg"), index, count: 3 },
            "/d",
        );
        assert_eq!(task.progress(), Some(progress));
        assert_eq!(task.files()[index].index, index);
        assert_eq!(task.files()[index].kind, "image");
        assert_eq!(task.files()[index].download_url, format!("/d/{index}.jpg"));
    }
    task.apply(TaskEvent::ImagesSaved(3), "/d");
    assert_eq!(task.status(), TaskStatus::Completed);
    assert_eq!(task.stage(), "3 张图片已准备好");
    assert!(task.download_url().is_none());
}

#[test]
fn a_failed_task_says_why() {
    let mut task = TaskRecord::queued(TASK);
    task.apply(TaskEvent::Failed("because".to_string()), "/d");
    assert_eq!(task.status(), TaskStatus::Failed);
    assert_eq!((task.stage(), task.progress()), ("处理失败", None));
    assert_eq!(task.error().as_deref(), Some("because"));
}

#[test]
fn videos_are_planned_at_media_addresses() {
    assert!(matches!(plan_video(&None, "7", TASK), Err(TaskError::NoMedia)));
    match plan_video(&Some("https://a.example/a.mp4".to_string()), "7", TASK) {
        Err(TaskError::Resolve(error)) => assert_eq!(error.code, "unsupported_media_host"),
        _ => panic!("an unsupported host"),
    }
    let plan = plan_video(&Some("https://a.zjcdn.com/video/a.mp4".to_string()), "7", TASK).unwrap();
    assert_eq!(plan.name, "qsy-7-01234567.mp4");
    assert_eq!(plan.part, "qsy-7-01234567.mp4.0123456789abcdef0123456789abcdef.part");
}

#[test]
fn images_are_saved_rather_than_a_video() {
    let image = ShareImage { url: "https://p3.douyinpic.com/a.jpg".to_string(), index: 0 };
    let media = Some("https://a.zjcdn.com/video/a.mp4".to_string());
    assert!(matches!(plan_task(&vec![image], &media, "7", TASK), Ok(TaskPlan::Images(1))));
    match plan_task(&Vec::new(), &media, "7", TASK) {
        Ok(TaskPlan::Video(plan)) => assert_eq!(plan.name, "qsy-7-01234567.mp4"),
        _ => panic!("a video"),
    }
    assert!(matches!(plan_task(&Vec::new(), &None, "7", TASK), Err(TaskError::NoMedia)));
}

fn noted(step: Result<RunStep, TaskError>) -> TaskEvent {
    match step {
        Ok(RunStep::Note(event)) => event,
        _ => panic!("an event"),
    }
}

#[test]
fn a_video_is_saved_and_noted() {
    let media = "https://a.zjcdn.com/video/a.mp4";
    let mut run = TaskRun::start(TASK, "4-2", Some(media.to_string()), Vec::new());
    assert!(matches!(noted(run.advance()), TaskEvent::VideoStarted));
    match run.advance() {
        Ok(RunStep::SaveVideo { address, file }) => {
            assert_eq!(address, media);
            assert_eq!(file.name, "qsy-42-01234567.mp4");
        }
        _ => panic!("a video"),
    }
    match run.saved() {
        TaskEvent::VideoSaved(name) => assert_eq!(name, "qsy-42-01234567.mp4"),
        _ => panic!("a video"),
    }
    assert!(matches!(run.advance(), Ok(RunStep::Finished)));
    let mut run = TaskRun::start(TASK, "42", None, Vec::new());
    assert!(matches!(run.advance(), Err(TaskError::NoMedia)));
}

#[test]
fn images_are_saved_and_noted_in_order() {
    let image = |index: usize| ShareImage {
        url: format!("https://p3.douyinpic.com/{index}.png"),
        index,
    };
    let mut run = TaskRun::start(TASK, "42", None, vec![image(0), image(1)]);
    assert!(matches!(noted(run.advance()), TaskEvent::ImagesStarted(2)));
    for place in 0..2 {
        match run.advance() {
            Ok(RunStep::SaveImage(plan)) => {
                assert_eq!(plan.url.as_str(), format!("https://p3.douyinpic.com/{place}.png"));
            }
            _ => panic!("an image"),
        }
        match run.saved() {
            TaskEvent::ImageSaved { name, index, count } => {
                assert_eq!(name, format!("qsy-42-01234567-{}.png", place + 1));
                assert_eq!((index, count), (place, 2));
            }
            _ => panic!("an image"),
        }
    }
    assert!(matches!(noted(run.advance()), TaskEvent::ImagesSaved(2)));
    assert!(matches!(run.advance(), Ok(RunStep::Finished)));

    let stray = ShareImage { url: "https://a.example/a.png".to_string(), index: 0 };
    let mut run = TaskRun::start(TASK, "42", None, vec![stray]);
    assert!(run.advance().is_ok());
    assert!(matches!(run.advance(), Err(TaskError::Resolve(_))));
}

#[test]
fn images_are_planned_with_the_endings_of_their_addresses() {
    let image = |url: &str| ShareImage { url: url.to_string(), index: 1 };
    let plan =
        plan_image(&image("https://p3.douyinpic.com/a.b/c.png?x=1"), "7", TASK).ok().unwrap();
    assert_eq!(plan.url.as_str(), "https://p3.douyinpic.com/a.b/c.png?x=1");
    assert_eq!(plan.file.name, "qsy-7-01234567-2.png");
    let plan = plan_image(&image("https://p3.douyinpic.com/a.png/c"), "7", TASK).ok().unwrap();
    assert_eq!(plan.file.name, "qsy-7-01234567-2.jpg");
    assert!(plan_image(&image("http://p3.douyinpic.com/c.png"), "7", TASK).is_err());
}

#[test]
fn downloads_follow_allowed_redirects_only() {
    let mut fetch = DownloadFetch::start("https://aweme.snssdk.com/aweme/v1/play/?video_id=1")
        .ok()
        .unwrap();
    assert!(fetch.next().is_ok());
    let to = reply(302, Some("https://a.zjcdn.com/video/a.mp4"), None);
    assert_eq!(fetch.receive(&to).ok(), Some(false));
    assert_eq!(fetch.current().as_str(), "https://a.zjcdn.com/video/a.mp4");
    assert_eq!(fetch.receive(&reply(200, None, Some("video/mp4"))).ok(), Some(true));
    assert_eq!(fetch.receive(&reply(200, None, None)).ok(), Some(true));
    assert!(matches!(
        fetch.receive(&reply(200, None, Some("Text/HTML"))),
        Err(TaskError::InvalidContent)
    ));
    assert!(matches!(
        fetch.receive(&reply(200, None, Some("application/json; x"))),
        Err(TaskError::InvalidContent)
    ));
    assert!(matches!(fetch.receive(&reply(404, None, None)), Err(TaskError::DownloadHttp(404))));
    match fetch.receive(&reply(302, None, None)) {
        Err(TaskError::Internal(text)) => assert_eq!(text, "媒体重定向缺少地址。"),
        _ => panic!("no location"),
    }
    match fetch.receive(&reply(302, Some("https://["), None)) {
        Err(TaskError::Internal(text)) => assert_eq!(text, "媒体重定向地址无效。"),
        _ => panic!("no URL"),
    }
    assert!(matches!(
        fetch.receive(&reply(302, Some("https://a.example/"), None)),
        Err(TaskError::Resolve(_))
    ));
    assert_eq!(fetch.current().as_str(), "https://a.zjcdn.com/video/a.mp4");
}

#[test]
fn downloads_stop_after_six_requests() {
    let url = |text: &str| WebUrl::parse(text).unwrap();
    let mut fetch = DownloadFetch::at(url("https://p3.douyinpic.com/0.jpg")).unwrap();
    for number in 1..=6 {
        assert!(fetch.next().is_ok());
        let location = format!("/{number}.jpg");
        assert_eq!(fetch.receive(&reply(301, Some(&location), None)).ok(), Some(false));
    }
    assert_eq!(fetch.current().as_str(), "https://p3.douyinpic.com/6.jpg");
    match fetch.next() {
        Err(TaskError::Internal(text)) => assert_eq!(text, "图片重定向次数过多。"),
        _ => panic!("too many requests"),
    }
    assert!(DownloadFetch::at(url("https://a.example/0.jpg")).is_none());
    assert!(DownloadFetch::at(url("http://p3.douyinpic.com/0.jpg")).is_none());
    assert!(DownloadFetch::start("https://p3.douyinpic.com/0.jpg").is_err());
    assert_eq!(download_types(Kind::Media), "video/*,application/octet-stream;q=0.9,*/*;q=0.5");
    assert_eq!(download_types(Kind::Image), "image/avif,image/webp,image/apng,image/*,*/*;q=0.5");
}

#[test]
fn images_are_requested_where_their_plan_says() {
    let image =
        ShareImage { url: "https://a.byteimg.com/?&amp;amp;x=%5Cu0026".to_string(), index: 0 };
    let plan = plan_image(&image, "7", TASK).ok().unwrap();
    assert_eq!(plan.url.as_str(), "https://a.byteimg.com/?&amp;x=%5Cu0026");
    let mut fetch = DownloadFetch::at(plan.url).unwrap();
    assert_eq!(fetch.current().as_str(), "https://a.byteimg.com/?&amp;x=%5Cu0026");
    let to = reply(302, Some("/?a&amp;b"), None);
    assert_eq!(fetch.receive(&to).ok(), Some(false));
    assert_eq!(fetch.current().as_str(), "https://a.byteimg.com/?a&b");
}

#[test]
fn the_longest_downloads_are_metered() {
    let mut meter = Meter::start(u64::MAX, Some(u64::MAX)).ok().unwrap();
    assert_eq!(meter.progress(), Some(15));
    assert!(meter.take(usize::MAX / 84).is_ok());
    assert_eq!(meter.progress(), Some(15));
    assert!(meter.take(usize::MAX / 2).is_ok());
    assert_eq!(meter.progress(), Some(16));
    assert!(meter.take(usize::MAX).is_ok());
    assert!(meter.take(usize::MAX).is_ok());
    assert_eq!(meter.progress(), Some(16));
    let mut meter = Meter::start(u64::MAX - 1, Some(1)).ok().unwrap();
    assert!(matches!(meter.take(usize::MAX), Err(TaskError::TooLarge)));
    assert!(meter.take(usize::MAX - 1).is_ok());
    assert_eq!(meter.progress(), Some(99));
}

#[test]
fn downloads_stay_within_their_limit() {
    assert!(matches!(Meter::start(10, Some(11)), Err(TaskError::TooLarge)));
    let mut meter = Meter::start(10, Some(8)).ok().unwrap();
    assert_eq!(meter.progress(), Some(15));
    assert!(meter.take(4).is_ok());
    assert_eq!(meter.progress(), Some(57));
    assert!(meter.take(6).is_ok());
    assert_eq!(meter.progress(), Some(99));
    assert!(matches!(meter.take(1), Err(TaskError::TooLarge)));
    assert!(Meter::start(10, None).ok().unwrap().progress().is_none());
    assert!(Meter::start(10, Some(0)).ok().unwrap().progress().is_none());
}
