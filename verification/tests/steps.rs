//! The steps from a share link to a response, with replies made up for them.
use share_resolver::address::{extract_share_url, Directness};
use share_resolver::collect::{
    extract_video_candidates_from_html, extract_video_candidates_from_value,
};
use share_resolver::errors::ResolveError;
use share_resolver::fetch::{
    accept_detail, accepted_types, check_detail_reply, detail_request_failed, detail_status,
    document_read_failed, document_request_failed, read_detail, Body, Discovery, DocumentFetch,
    MediaRedirect, Reply, VideoDocument,
};
use share_resolver::json::{Json, JsonMember, JsonNumber, JsonText, Reading};
use share_resolver::markup::collect_structured_payloads;
use share_resolver::ranking::Candidate;
use share_resolver::resolution::{
    attempts_for, push_warning, FoundMedia, MediaSearch, SearchStep,
};
use share_resolver::response::{collect_page_post, Resolution, ShareResolveResponse, Stage};

const PLAYWM: &str = "https://aweme.snssdk.com/aweme/v1/playwm/?video_id=1";
const PLAY: &str = "https://aweme.snssdk.com/aweme/v1/play/?video_id=1";
const CDN: &str = "https://a.zjcdn.com/video/a.mp4";
const NO_PAYLOAD: &str = "No supported public hydration payload was found in the document.";

fn reply(status: u16, location: Option<&str>) -> Reply {
    Reply {
        status,
        location: location.map(str::to_string),
        content_type: None,
        content_length: None,
    }
}

fn typed(status: u16, content_type: &str) -> Reply {
    Reply {
        status,
        location: None,
        content_type: Some(content_type.to_string()),
        content_length: None,
    }
}

fn code<T>(result: Result<T, ResolveError>) -> String {
    result.err().expect("an error").code
}

fn video(share_text: &str) -> VideoDocument {
    Discovery::start(share_text).ok().unwrap().next().ok().unwrap().expect("a video")
}

fn candidate(url: &str, directness: Directness) -> Candidate {
    Candidate {
        url: url.to_string(),
        source_path: "path".to_string(),
        source_kind: "play".to_string(),
        directness,
        playback_variant: None,
        width: None,
        height: None,
        bitrate: None,
        codec: None,
        format: None,
        score: 0,
        evidence: Vec::new(),
        sources: Vec::new(),
        order: 0,
        area: 0,
    }
}

fn found(step: SearchStep) -> FoundMedia {
    match step {
        SearchStep::Found(media) => media,
        _ => panic!("a media file"),
    }
}

fn tried(step: SearchStep) -> String {
    match step {
        SearchStep::Try(url) => url,
        _ => panic!("a play endpoint"),
    }
}

#[test]
fn a_link_with_a_video_needs_no_request() {
    let document = video("see https://www.douyin.com/video/42?x=1 !");
    assert_eq!(document.id(), "42");
    assert_eq!(document.url().as_str(), "https://www.iesdouyin.com/share/video/42/");
    assert_eq!(video("https://www.douyin.com/?modal_id=7").id(), "7");
    assert_eq!(video("https://www.douyin.com/?aweme_id=8").id(), "8");
}

#[test]
fn share_redirects_are_followed_to_the_video() {
    let mut discovery = Discovery::start("https://v.douyin.com/abc/").ok().unwrap();
    assert!(discovery.next().ok().unwrap().is_none());
    assert_eq!(discovery.current().as_str(), "https://v.douyin.com/abc/");
    discovery.follow(&reply(302, Some("/def/"))).unwrap();
    assert_eq!(discovery.current().as_str(), "https://v.douyin.com/def/");
    let to = "https://www.iesdouyin.com/share/video/42/?region=CN";
    discovery.follow(&reply(301, Some(to))).unwrap();
    assert_eq!(discovery.next().ok().unwrap().unwrap().id(), "42");
}

#[test]
fn share_redirects_that_lead_nowhere_are_errors() {
    let mut discovery = Discovery::start("https://v.douyin.com/abc/").ok().unwrap();
    let error = discovery.follow(&reply(200, None)).unwrap_err();
    assert_eq!((error.code.as_str(), error.status), ("video_id_not_found", 422));
    assert_eq!(code(discovery.follow(&reply(302, None))), "redirect_missing_location");
    assert_eq!(code(discovery.follow(&reply(302, Some("https://[")))), "invalid_url");
    assert_eq!(
        code(discovery.follow(&reply(302, Some("https://attacker.example/")))),
        "unsupported_host"
    );
    assert_eq!(discovery.current().as_str(), "https://v.douyin.com/abc/");
    assert_eq!(code(Discovery::start("")), "missing_input");
    assert_eq!(code(Discovery::start("no link")), "missing_url");
    let mut discovery = Discovery::start("https://www.douyin.com/?modal_id=x").ok().unwrap();
    assert_eq!(code(discovery.next()), "invalid_video_id");
    discovery.follow(&reply(302, Some("/b/"))).unwrap();
}

#[test]
fn share_redirects_are_limited() {
    let mut discovery = Discovery::start("https://v.douyin.com/0/").ok().unwrap();
    for number in 1..=5 {
        assert!(discovery.next().ok().unwrap().is_none());
        discovery.follow(&reply(302, Some(&format!("/{number}/")))).unwrap();
    }
    assert_eq!(code(discovery.next()), "too_many_redirects");
}

#[test]
fn documents_are_requested_a_limited_number_of_times() {
    let document = video("https://www.douyin.com/video/42");
    let mut fetch = DocumentFetch::start(&document);
    assert_eq!(fetch.current().as_str(), "https://www.iesdouyin.com/share/video/42/");
    for number in 1..=3 {
        assert!(fetch.next().is_ok());
        let location = format!("https://www.douyin.com/{number}");
        assert!(!fetch.receive(&reply(302, Some(&location))).unwrap());
        assert_eq!(fetch.current().as_str(), location);
    }
    assert_eq!(code(fetch.next()), "document_redirect_failed");
}

#[test]
fn document_replies_are_checked() {
    let document = video("https://www.douyin.com/video/42");
    let mut fetch = DocumentFetch::start(&document);
    assert_eq!(code(fetch.receive(&reply(302, None))), "document_redirect_failed");
    assert_eq!(code(fetch.receive(&reply(302, Some("https://[")))), "invalid_url");
    let error = fetch.receive(&reply(404, None)).unwrap_err();
    assert_eq!(error.code, "document_fetch_failed");
    assert_eq!(error.error, "The public video document returned HTTP 404.");
    let error = fetch.receive(&typed(200, "Image/PNG")).unwrap_err();
    assert_eq!(error.code, "unexpected_document_type");
    assert_eq!(error.error, "Unexpected public document type: image/png");
    assert!(fetch.receive(&typed(200, "Text/HTML; charset=utf-8")).unwrap());
    assert!(fetch.receive(&typed(200, "application/json")).unwrap());
    assert!(fetch.receive(&reply(204, None)).unwrap());
}

#[test]
fn bodies_stay_within_the_limit() {
    let mut declared = reply(200, None);
    declared.content_length = Some("2097153".to_string());
    assert_eq!(code(Body::start(&declared)), "document_too_large");
    declared.content_length = Some("2097152".to_string());
    assert!(Body::start(&declared).is_ok());
    declared.content_length = Some("much".to_string());
    let mut body = Body::start(&declared).ok().unwrap();
    body.push("视".as_bytes()).unwrap();
    body.push(&[b'a', 0xff]).unwrap();
    assert_eq!(body.finish(), "视a\u{fffd}");
    let mut body = Body::start(&reply(200, None)).ok().unwrap();
    body.push(&vec![b'x'; 2_097_152]).unwrap();
    assert_eq!(code(body.push(b"y")), "document_too_large");
    assert_eq!(body.finish().len(), 2_097_152);
}

#[test]
fn detail_replies_are_checked() {
    let error = check_detail_reply(&reply(503, None)).unwrap_err();
    assert_eq!(error.code, "detail_fetch_failed");
    assert_eq!(error.error, "The public video detail endpoint returned HTTP 503.");
    let error = check_detail_reply(&typed(200, "TEXT/html")).unwrap_err();
    assert_eq!(error.code, "unexpected_detail_type");
    assert_eq!(error.error, "Unexpected public video detail type: text/html");
    assert!(check_detail_reply(&typed(200, "Application/JSON")).is_ok());
    assert!(check_detail_reply(&reply(200, None)).is_ok());
}

#[test]
fn details_are_read_unless_they_state_a_failure() {
    assert_eq!(code(read_detail(" \n")), "empty_detail_response");
    let error = read_detail("{").err().unwrap();
    assert_eq!(error.code, "invalid_detail_response");
    assert_eq!(
        error.error,
        "The public video detail response was not valid JSON: EOF while parsing an object at line 1 column 1"
    );
    for (body, status) in [
        (r#"{"status_code":0}"#, Some(0)),
        (r#"{"status_code":"0"}"#, Some(0)),
        (r#"{"status_code":"+00"}"#, Some(0)),
        (r#"{"status_code":null}"#, None),
        (r#"{"status_code":0.5}"#, None),
        (r#"{"status_code":"-"}"#, None),
        (r#"[{"status_code":5}]"#, None),
    ] {
        let detail = read_detail(body).ok().expect(body);
        assert_eq!(detail_status(&detail), status, "{body}");
    }
    for (body, message) in [
        (
            r#"{"status_code":2154}"#,
            "The public video detail endpoint returned status code 2154.",
        ),
        (
            r#"{"status_code":"-9223372036854775808"}"#,
            "The public video detail endpoint returned status code -9223372036854775808.",
        ),
    ] {
        let error = read_detail(body).err().unwrap();
        assert_eq!(error.code, "detail_unavailable");
        assert_eq!(error.error, message);
    }
    let error = accept_detail(Err("broken".to_string())).err().unwrap();
    assert_eq!(error.error, "The public video detail response was not valid JSON: broken");
    assert!(matches!(accept_detail(Ok(Json::Null)), Ok(Json::Null)));
}

#[test]
fn failed_requests_have_messages() {
    assert_eq!(document_request_failed("x").error, "Public document request failed: x");
    assert_eq!(
        document_read_failed("x").error,
        "The public video document could not be read: x"
    );
    assert_eq!(detail_request_failed("x").error, "Public video detail request failed: x");
    assert_eq!(accepted_types(true), "video/*,*/*;q=0.5");
    assert_eq!(
        accepted_types(false),
        "text/html,application/xhtml+xml,application/json;q=0.9,*/*;q=0.7"
    );
}

#[test]
fn play_endpoints_redirect_to_media_files() {
    let mut redirect = MediaRedirect::start(PLAY).ok().unwrap();
    assert!(redirect.next().ok().unwrap().is_none());
    redirect.follow(&reply(302, Some("/aweme/v1/play/?video_id=2"))).unwrap();
    assert_eq!(
        redirect.current().as_str(),
        "https://aweme.snssdk.com/aweme/v1/play/?video_id=2"
    );
    redirect.follow(&reply(302, Some(CDN))).unwrap();
    assert_eq!(redirect.next().ok().unwrap().unwrap().as_str(), CDN);
}

#[test]
fn media_redirects_that_lead_nowhere_are_errors() {
    let mut redirect = MediaRedirect::start(PLAY).ok().unwrap();
    let error = redirect.follow(&reply(200, None)).unwrap_err();
    assert_eq!(error.code, "media_redirect_failed");
    assert_eq!(error.error, "The public play endpoint returned HTTP 200.");
    assert_eq!(code(redirect.follow(&reply(302, None))), "media_redirect_missing_location");
    assert_eq!(code(redirect.follow(&reply(302, Some("https://[")))), "invalid_media_redirect");
    assert_eq!(
        code(redirect.follow(&reply(302, Some("https://a.example/")))),
        "unsupported_media_host"
    );
    for _ in 0..3 {
        assert!(redirect.next().is_ok());
        redirect.follow(&reply(302, Some(PLAY))).unwrap();
    }
    redirect.follow(&reply(302, Some(CDN))).unwrap();
    assert_eq!(code(redirect.next()), "media_redirect_limit");
    assert_eq!(code(MediaRedirect::start("http://a.zjcdn.com/video/a.mp4")), "invalid_url");
}

#[test]
fn warnings_are_given_once() {
    let mut warnings = Vec::new();
    push_warning(&mut warnings, "a");
    push_warning(&mut warnings, "b");
    push_warning(&mut warnings, "a");
    assert_eq!(warnings, ["a", "b"]);
}

#[test]
fn endpoints_without_a_mark_are_tried_first() {
    let attempts = attempts_for(&candidate(PLAYWM, Directness::PlayEndpoint)).ok().unwrap();
    assert_eq!(attempts.len(), 2);
    assert_eq!((attempts[0].url.as_str(), attempts[0].variant.as_str()), (PLAY, "play"));
    assert_eq!((attempts[1].url.as_str(), attempts[1].variant.as_str()), (PLAYWM, "playwm"));
    let attempts = attempts_for(&candidate(PLAY, Directness::PlayEndpoint)).ok().unwrap();
    assert_eq!(attempts.len(), 1);
    assert_eq!(attempts[0].variant, "unknown");
    assert!(attempts_for(&candidate("https://a.example/", Directness::PlayEndpoint)).is_err());
}

#[test]
fn media_files_are_taken_as_they_are() {
    let candidates =
        vec![candidate("https://a.example/", Directness::Unknown), candidate(CDN, Directness::CdnMedia)];
    let mut search = MediaSearch::start(&candidates);
    let media = found(search.advance().ok().unwrap());
    assert_eq!((media.url.as_str(), media.variant.as_str()), (CDN, "direct"));
}

#[test]
fn a_failed_clean_endpoint_is_replaced_with_a_warning() {
    let candidates = vec![candidate(PLAYWM, Directness::PlayEndpoint)];
    let mut search = MediaSearch::start(&candidates);
    let mut warnings = Vec::new();
    assert_eq!(tried(search.advance().ok().unwrap()), PLAY);
    let failure = ResolveError::upstream("x", "failed");
    assert!(search.conclude(Err(failure), &mut warnings).is_none());
    assert!(warnings.is_empty());
    assert_eq!(tried(search.advance().ok().unwrap()), PLAYWM);
    let media = search.conclude(Ok(CDN.to_string()), &mut warnings).unwrap();
    assert_eq!((media.url.as_str(), media.variant.as_str()), (CDN, "playwm"));
    assert_eq!(
        warnings,
        ["The clean playback variant was unavailable; the original playback entry was used."]
    );
}

#[test]
fn failed_endpoints_are_warned_of_and_candidates_run_out() {
    let mut candidates = vec![candidate(PLAY, Directness::PlayEndpoint)];
    for _ in 0..5 {
        candidates.push(candidate("https://a.example/", Directness::Unknown));
    }
    candidates.push(candidate(CDN, Directness::CdnMedia));
    let mut search = MediaSearch::start(&candidates);
    let mut warnings = Vec::new();
    assert_eq!(tried(search.advance().ok().unwrap()), PLAY);
    let failure = ResolveError::upstream("x", "failed");
    assert!(search.conclude(Err(failure), &mut warnings).is_none());
    assert_eq!(warnings, ["failed"]);
    assert!(matches!(search.advance(), Ok(SearchStep::Exhausted)));
}

fn resolution(candidates: Vec<Candidate>) -> Resolution {
    let fetch = DocumentFetch::start(&video("https://www.douyin.com/video/42"));
    Resolution::start(&fetch, &collect_structured_payloads(""), candidates)
}

fn resolved(candidates: Vec<Candidate>, media: FoundMedia) -> ShareResolveResponse {
    let mut resolution = resolution(candidates);
    resolution.searched(Some(media), &Vec::new());
    resolution.finish()
}

#[test]
fn details_with_media_take_the_place_of_the_page() {
    let detail = read_detail(&format!(
        r#"{{"desc":" T ","images":["https://p3.douyinpic.com/a.jpg"],"play_addr":"{CDN}"}}"#
    ))
    .ok()
    .unwrap();
    let extraction = extract_video_candidates_from_value(&detail, "detail", None);
    let mut resolution = resolution(Vec::new());
    assert_eq!(resolution.stage(), Stage::PageSearch);
    resolution.searched(None, &vec![NO_PAYLOAD.to_string(), "v".to_string()]);
    assert_eq!(resolution.stage(), Stage::DetailFetch);
    resolution.detail_found(&detail, extraction.candidates.into_sorted());
    assert_eq!(resolution.stage(), Stage::DetailSearch);
    assert_eq!(resolution.candidates().len(), 1);
    let media = FoundMedia { url: CDN.to_string(), variant: "direct".to_string() };
    resolution.searched(Some(media), &Vec::new());
    assert_eq!(resolution.stage(), Stage::Done);
    let response = resolution.finish();
    assert_eq!(response.title.as_deref(), Some("T"));
    assert_eq!(response.images.len(), 1);
    assert_eq!(response.candidates.len(), 1);
    assert_eq!(response.candidates[0].source_kind.as_deref(), Some("resolved-cdn"));
    assert_eq!(
        response.warnings,
        [
            NO_PAYLOAD,
            "v",
            "The share page did not include media metadata; used the public video detail response.",
            "Direct CDN URLs are temporary and may expire."
        ]
    );
}

#[test]
fn details_without_media_leave_the_page_as_it_is() {
    let detail = read_detail(r#"{"desc":"T"}"#).ok().unwrap();
    let mut resolution = resolution(vec![candidate("https://a.example/", Directness::Unknown)]);
    resolution.searched(None, &Vec::new());
    resolution.detail_found(&detail, Vec::new());
    assert_eq!(resolution.stage(), Stage::Done);
    let response = resolution.finish();
    assert!(response.title.is_none());
    assert_eq!(response.candidates.len(), 1);
    assert_eq!(
        response.warnings,
        [
            NO_PAYLOAD,
            "The public video detail response did not include a supported media address."
        ]
    );
}

#[test]
fn details_that_cannot_be_had_are_warned_of() {
    let mut resolution = resolution(Vec::new());
    resolution.searched(None, &Vec::new());
    resolution.detail_failed(&ResolveError::upstream("x", "failed"));
    assert_eq!(resolution.stage(), Stage::Done);
    let response = resolution.finish();
    assert_eq!(response.status, "document-only");
    assert_eq!(response.warnings, [NO_PAYLOAD, "failed"]);
}

#[test]
fn a_resolved_response_lists_the_media_file_first() {
    let mut candidates = vec![candidate(CDN, Directness::CdnMedia)];
    for number in 0..12 {
        let url = format!("https://a.zjcdn.com/video/{number}.mp4");
        candidates.push(candidate(&url, Directness::CdnMedia));
    }
    let media = FoundMedia { url: CDN.to_string(), variant: "play".to_string() };
    let response = resolved(candidates, media);
    assert_eq!(response.status, "resolved");
    assert_eq!(response.document_url.as_deref(), Some("https://www.iesdouyin.com/share/video/42/"));
    assert_eq!(response.video_id.as_deref(), Some("42"));
    assert_eq!(response.media_url.as_deref(), Some(CDN));
    assert_eq!(response.playback_variant.as_deref(), Some("play"));
    assert_eq!(response.candidates.len(), 10);
    assert_eq!(response.candidates[0].url, CDN);
    assert_eq!(response.candidates[0].source_kind.as_deref(), Some("resolved-clean-cdn"));
    assert_eq!(response.candidates[0].directness.as_deref(), Some("cdn-media"));
    assert_eq!(response.candidates.iter().filter(|candidate| candidate.url == CDN).count(), 1);
    assert_eq!(response.warnings, [NO_PAYLOAD, "Direct CDN URLs are temporary and may expire."]);
}

#[test]
fn an_unresolved_response_is_the_document_only() {
    let mut resolution = resolution(vec![candidate("https://a.example/", Directness::Unknown)]);
    resolution.searched(None, &Vec::new());
    resolution.detail_failed(&ResolveError::upstream("x", NO_PAYLOAD));
    let response = resolution.finish();
    assert_eq!(response.status, "document-only");
    assert!(response.media_url.is_none());
    assert!(response.playback_variant.is_none());
    assert_eq!(response.candidates.len(), 1);
    assert_eq!(response.candidates[0].source_path.as_deref(), Some("path"));
    assert_eq!(response.warnings, [NO_PAYLOAD]);
}

#[test]
fn a_resolution_starts_from_the_document_that_was_read() {
    let mut fetch = DocumentFetch::start(&video("https://www.douyin.com/note/42?x=1"));
    assert_eq!(fetch.id(), "42");
    let to = reply(302, Some("https://m.douyin.com/share/video/7/"));
    assert_eq!(fetch.receive(&to).ok(), Some(false));
    assert_eq!(fetch.id(), "42");
    let html = concat_scripts(&[r#"{"desc":"T","images":["https://p3.douyinpic.com/a.jpg"]}"#]);
    let page = collect_structured_payloads(&html);
    let mut resolution = Resolution::start(&fetch, &page, Vec::new());
    let warnings = vec!["v".to_string(), "v".to_string()];
    resolution.searched(None, &warnings);
    resolution.detail_failed(&ResolveError::upstream("x", "v"));
    let response = resolution.finish();
    assert_eq!(response.video_id.as_deref(), Some("42"));
    assert_eq!(response.document_url.as_deref(), Some("https://m.douyin.com/share/video/7/"));
    assert_eq!(response.title.as_deref(), Some("T"));
    assert_eq!(response.images.len(), 1);
    assert_eq!(response.images[0].index, 0);
    assert_eq!(response.warnings, ["v"]);
}

#[test]
fn readings_are_given_to_numbers_and_strings_in_order() {
    let html = concat_scripts(&[
        &format!(r#"{{"a":[1,"x",null],"bit_rate":"7","play_addr":"{CDN}"}}"#),
        r#"{"b":true,"c":-2.5}"#,
    ]);
    let page = collect_structured_payloads(&html);
    assert_eq!(page.html(), html);
    assert_eq!(page.number_texts(), ["1", "x", "7", CDN, "-2.5"]);
    let at = |place: i64| Some(Reading { place, bonus: place as u16 });
    let page = page.with_readings(&vec![at(1), None, at(3)]);
    assert_eq!(page.number_texts(), ["1", "x", "7", CDN, "-2.5"]);
    let read: Vec<&str> = page.payloads().iter().map(|payload| payload.source.as_str()).collect();
    assert_eq!(read, ["application/json", "application/json"]);
    match &page.payloads()[0].value {
        Json::Object(members) => match (&members[0].value, &members[1].value) {
            (Json::Array(items), Json::Text(rate)) => {
                assert!(matches!(&items[0], Json::Number(number) if number.reading == at(1)));
                assert!(matches!(&items[1], Json::Text(text) if text.reading.is_none()));
                assert_eq!(rate.reading, at(3));
            }
            _ => panic!("a list and a bit rate"),
        },
        _ => panic!("an object"),
    }
    let extraction = extract_video_candidates_from_html(&page, None).ok().unwrap();
    assert_eq!(extraction.stats.scripts, 2);
    assert_eq!(extraction.stats.parsed_payloads, 2);
    assert_eq!(extraction.stats.visited_nodes, 10);
    assert_eq!(extraction.candidates.get(0).bitrate, at(3));
}

#[test]
fn pages_with_very_many_addresses_are_collected_and_ranked() {
    let addresses: Vec<String> = (0..30_000)
        .map(|number| format!(r#""https://a.zjcdn.com/video/{}.mp4""#, number % 20_000))
        .collect();
    let html = concat_scripts(&[&format!(r#"{{"play_addr":[{}]}}"#, addresses.join(","))]);
    let page = collect_structured_payloads(&html);
    let extraction = extract_video_candidates_from_html(&page, None).ok().unwrap();
    assert_eq!(extraction.candidates.len(), 20_000);
    let sorted = extraction.candidates.into_sorted();
    assert!(sorted.iter().enumerate().all(|(place, candidate)| candidate.order == place));
    let media = FoundMedia { url: sorted[7].url.clone(), variant: "direct".to_string() };
    let response = resolved(sorted, media);
    assert_eq!(response.candidates[0].url, "https://a.zjcdn.com/video/7.mp4");
    assert_eq!(response.candidates[8].url, "https://a.zjcdn.com/video/8.mp4");
}

#[test]
fn readings_change_scores_alone() {
    let document = |reading: Option<Reading>| {
        let bitrate = JsonNumber { text: "1000".to_string(), integer: Some(1000), reading };
        let member = |key: &str, value: Json| JsonMember { key: key.to_string(), value };
        let address = JsonText { text: CDN.to_string(), reading: None };
        Json::Object(vec![
            member("bit_rate", Json::Number(bitrate)),
            member("playAddrH264", Json::Text(address)),
        ])
    };
    let collect = |reading: Option<Reading>| {
        let extraction = extract_video_candidates_from_value(&document(reading), "detail", None);
        assert_eq!(extraction.stats.visited_nodes, 3);
        extraction.candidates.into_sorted().remove(0)
    };
    let bare = collect(None);
    let read = collect(Some(Reading { place: 4652007308841189376, bonus: 600 }));
    assert_eq!((bare.url.as_str(), read.url.as_str()), (CDN, CDN));
    assert_eq!(bare.source_path, read.source_path);
    assert_eq!(bare.source_path, "detail.playAddrH264");
    assert_eq!((bare.evidence, bare.sources, bare.order), (read.evidence, read.sources, read.order));
    assert_eq!(read.score, bare.score + 600);
}

#[test]
fn the_first_title_and_all_images_of_a_page_are_kept() {
    let html = concat_scripts(&[
        r#"{"description":"one","image_list_v2":["//p3.douyinpic.com/a.jpg"]}"#,
        r#"{"desc":"two","images":[{"url":"https://p3.douyinpic.com/a.jpg"},{"urls":["https://p3.douyinpic.com/b.jpg"]}]}"#,
    ]);
    let page = collect_structured_payloads(&html);
    assert_eq!(page.scripts(), 2);
    let post = collect_page_post(&page);
    assert_eq!(post.title.as_deref(), Some("one"));
    let urls: Vec<&str> = post.images.iter().map(|image| image.url.as_str()).collect();
    assert_eq!(urls, ["https://p3.douyinpic.com/a.jpg", "https://p3.douyinpic.com/b.jpg"]);
    assert_eq!(post.images[1].index, 1);
}

fn concat_scripts(bodies: &[&str]) -> String {
    bodies
        .iter()
        .map(|body| format!(r#"<script type="application/json">{body}</script>"#))
        .collect()
}

#[test]
fn a_share_link_ends_before_its_punctuation() {
    let url = extract_share_url("打开 HTTPS://V.douyin.com/Ab/！").ok().unwrap();
    assert_eq!(url.as_str(), "https://v.douyin.com/Ab/");
}
