//! The resolver on the pages and texts that it is made for.
use share_resolver::address::{
    assert_document_url, derive_clean_play_url, extract_share_url, extract_video_id,
    parse_media_url, public_document_label, public_video_detail_url, Directness, MAX_INPUT_BYTES,
};
use share_resolver::collect::{
    extract_video_candidates_from_html, extract_video_candidates_from_value, Extraction,
    ExtractionStats, MAX_DOCUMENT_BYTES,
};
use share_resolver::errors::ResolveError;
use share_resolver::fetch::read_detail;
use share_resolver::images::{collect_title_and_images, Post};
use share_resolver::json::{Json, Reading};
use share_resolver::markup::collect_structured_payloads;
use share_resolver::ranking::{Candidate, CandidateSet};
use share_resolver::readings::{collect_number_texts, give_readings};
use share_resolver::weburl::WebUrl;

const VIDEO_ID: &str = "7657414745401989745";
const PLAYWM_URL: &str = "https://aweme.snssdk.com/aweme/v1/playwm/?line=0&line=1&video_id=opaque%2Btoken&ratio=1080p";
const CLEAN_URL: &str =
    "https://aweme.snssdk.com/aweme/v1/play/?line=0&line=1&video_id=opaque%2Btoken&ratio=1080p";
const CDN_URL: &str =
    "https://v3-dy-o.zjcdn.com/obj/tos/video/segment.mp4?mime_type=video_mp4&expires=123";
const DETAIL_CDN_URL: &str = "https://v5-gz2-colda.douyinvod.com/obj/tos/video/segment.mp4?mime_type=video_mp4&expires=123";

/// The place of a number among double-precision numbers.
fn place(number: f64) -> i64 {
    let bits = number.to_bits() as i64;
    bits ^ (((bits >> 63) as u64) >> 1) as i64
}

/// The number at a place.
fn number_at(place: i64) -> f64 {
    let bits = place ^ (((place >> 63) as u64) >> 1) as i64;
    f64::from_bits(bits as u64)
}

fn reading(number: f64) -> Option<Reading> {
    if !number.is_finite() {
        return None;
    }
    let bonus = if number > 0.0 {
        ((number + 1.0).log10() * 2.0).min(12.0) * 100.0
    } else {
        0.0
    };
    Some(Reading { place: place(number), bonus: bonus.round() as u16 })
}

fn read_all(texts: &[String]) -> Vec<Option<Reading>> {
    texts.iter().map(|text| text.parse::<f64>().ok().and_then(reading)).collect()
}

fn value_of(reading: &Option<Reading>) -> f64 {
    reading.as_ref().map_or(0.0, |reading| number_at(reading.place))
}

fn known(reading: &Option<Reading>) -> Option<f64> {
    reading.as_ref().map(|reading| number_at(reading.place))
}

/// The candidates by rank, with their areas noted.
fn ranked(mut candidates: CandidateSet) -> Vec<Candidate> {
    for index in 0..candidates.len() {
        let candidate = candidates.get(index);
        let area = value_of(&candidate.width) * value_of(&candidate.height);
        candidates.set_area(index, place(area));
    }
    candidates.into_sorted()
}

fn extract(html: &str) -> Result<Extraction, ResolveError> {
    let page = collect_structured_payloads(html);
    let readings = read_all(&page.number_texts());
    extract_video_candidates_from_html(&page.with_readings(&readings), Some(VIDEO_ID))
}

fn document(text: &str) -> Json {
    let json = read_detail(text).expect("a document");
    let mut texts = Vec::new();
    collect_number_texts(&json, &mut texts);
    give_readings(json, &read_all(&texts), 0).0
}

#[test]
fn document_url_validation_uses_named_allowlisted_https_hosts() {
    assert_eq!(
        assert_document_url("https://v.douyin.com/short-code/").ok().expect("allowlisted URL").as_str(),
        "https://v.douyin.com/short-code/"
    );

    for (url, code) in [
        ("https://v.douyin.com.attacker.example/short-code/", "unsupported_host"),
        ("https://v.douyin.com@attacker.example/short-code/", "invalid_url"),
        ("https://127.0.0.1/short-code/", "invalid_url"),
        ("https://v.douyin.com:444/short-code/", "invalid_url"),
        ("http://v.douyin.com/short-code/", "invalid_url"),
    ] {
        assert_eq!(assert_document_url(url).err().unwrap().code, code);
    }
}

#[test]
fn share_text_extracts_the_first_url_and_trims_share_punctuation() {
    let url = extract_share_url("8.46 copy and open https://v.douyin.com/pL7ReZweqLE/\u{3002}")
        .ok()
        .expect("share URL");
    assert_eq!(url.as_str(), "https://v.douyin.com/pL7ReZweqLE/");
}

#[test]
fn share_text_extracts_note_urls_from_image_posts() {
    let url = extract_share_url(
        "看看图文作品 https://www.iesdouyin.com/share/note/7682062654509331178/",
    )
    .ok()
    .expect("note URL should be extracted");
    assert_eq!(extract_video_id(&url).as_deref(), Some("7682062654509331178"));
}

#[test]
fn clean_play_derivation_changes_only_the_endpoint_path() {
    let clean = derive_clean_play_url(PLAYWM_URL)
        .ok()
        .expect("valid playback URL")
        .expect("clean playback variant");
    assert_eq!(clean.path(), "/aweme/v1/play/");
    assert_eq!(clean.query(), WebUrl::parse(PLAYWM_URL).unwrap().query());
    assert_eq!(clean.as_str(), CLEAN_URL);
}

#[test]
fn public_video_detail_url_keeps_the_document_origin_and_uses_stable_parameters() {
    let document_url =
        WebUrl::parse("https://www.iesdouyin.com/share/video/7657414745401989745/").unwrap();
    let detail_url = public_video_detail_url(&document_url, VIDEO_ID).ok().unwrap();
    assert_eq!(
        detail_url.as_str(),
        "https://www.iesdouyin.com/aweme/v1/aweme/detail/?aweme_id=7657414745401989745&aid=6383&device_platform=web&version_code=280500&version_name=28.5.0"
    );
}

#[test]
fn current_share_shell_has_no_embedded_media_candidate() {
    let html = format!(
        r#"<script>window._ROUTER_DATA = {{"loaderData":{{"video_(id)/page":{{"itemId":"{VIDEO_ID}"}}}}}};</script>"#
    );
    let result = extract(&html).unwrap_or_else(|error| panic!("{error:?}"));
    assert_eq!(result.stats.parsed_payloads, 1);
    assert!(ranked(result.candidates).is_empty());
}

#[test]
fn public_detail_payload_produces_direct_cdn_candidates() {
    let detail = document(&format!(
        r#"{{
            "status_code": 0,
            "aweme_detail": {{
                "aweme_id": "{VIDEO_ID}",
                "video": {{
                    "width": 1920,
                    "height": 1080,
                    "bit_rate": 6400000,
                    "play_addr_h264": {{"url_list": ["{DETAIL_CDN_URL}"]}},
                    "play_addr": {{"url_list": ["{DETAIL_CDN_URL}"]}}
                }}
            }}
        }}"#
    ));
    let result =
        extract_video_candidates_from_value(&detail, "public video detail", Some(VIDEO_ID));
    let candidates = ranked(result.candidates);
    let candidate = candidates.first().expect("direct CDN candidate");
    assert_eq!(candidate.url, DETAIL_CDN_URL);
    assert_eq!(candidate.directness, Directness::CdnMedia);
    assert_eq!(candidate.playback_variant.as_deref(), Some("direct"));
    assert_eq!(known(&candidate.width), Some(1920.0));
    assert_eq!(known(&candidate.height), Some(1080.0));
    assert_eq!(known(&candidate.bitrate), Some(6_400_000.0));
}

#[test]
fn router_data_and_html_tags_produce_ranked_deduplicated_candidates() {
    let encoded_cdn = CDN_URL.replace('&', "&amp;");
    let html = format!(
        r#"<html><head>
              <meta property="og:video" content="https://v3-dy-o.zjcdn.com/obj/tos/video/cover.jpg">
              <meta property="og:video" content="{encoded_cdn}">
            </head><body>
              <video src="https://v3-dy-o.zjcdn.com/obj/tos/video/poster.png"></video>
              <source src="{CDN_URL}">
              <script>window._ROUTER_DATA = {{"data":{{"aweme_id":"{VIDEO_ID}","video":{{"width":1920,"height":1080,"bit_rate":6400000,"play_addr":{{"url_list":["{PLAYWM_URL}","{PLAYWM_URL}"]}}}}}}}};</script>
            </body></html>"#
    );
    let result = extract(&html).unwrap_or_else(|error| panic!("{error:?}"));
    assert_eq!(result.stats.parsed_payloads, 1);
    let candidates = ranked(result.candidates);
    assert_eq!(
        candidates.iter().filter(|candidate| candidate.url == PLAYWM_URL).count(),
        1
    );
    let play = candidates
        .iter()
        .find(|candidate| candidate.url == PLAYWM_URL)
        .expect("play candidate");
    assert_eq!(known(&play.width), Some(1920.0));
    assert_eq!(known(&play.height), Some(1080.0));
    assert_eq!(known(&play.bitrate), Some(6_400_000.0));
    assert_eq!(
        candidates.iter().filter(|candidate| candidate.url == CDN_URL).count(),
        1
    );
    assert!(!candidates.iter().any(
        |candidate| candidate.url.contains("cover.jpg") || candidate.url.contains("poster.png")
    ));
}

#[test]
fn requested_video_never_uses_another_videos_structured_candidates() {
    let html = r#"<script>window._ROUTER_DATA={"detail":{"aweme_id":"9999999999999999999","video":{"play_addr":{"url_list":["https://aweme.snssdk.com/aweme/v1/playwm/?video_id=wrong-video"]}}}};</script>"#;
    let result = extract(html).unwrap_or_else(|error| panic!("{error:?}"));
    assert!(ranked(result.candidates).is_empty());
}

#[test]
fn play_is_ranked_before_playwm_without_claiming_visual_status() {
    let play = CLEAN_URL;
    let html = format!(
        r#"<script type="application/json">{{"detail":{{"aweme_id":"{VIDEO_ID}","video":{{"play_addr_h264":{{"url_list":["{play}"]}},"play_addr":{{"url_list":["{PLAYWM_URL}"]}}}}}}}}</script>"#
    );
    let result = extract(&html).unwrap_or_else(|error| panic!("{error:?}"));
    let candidates = ranked(result.candidates);
    let play_index =
        candidates.iter().position(|candidate| candidate.url == play).unwrap();
    let playwm_index =
        candidates.iter().position(|candidate| candidate.url == PLAYWM_URL).unwrap();
    assert!(play_index < playwm_index);
}

#[test]
fn pure_parsers_reject_oversized_and_unsupported_inputs() {
    let oversized = "x".repeat(MAX_INPUT_BYTES + 1);
    let error = extract_share_url(&oversized).err().unwrap();
    assert_eq!(error.code, "input_too_large");
    assert_eq!(error.status, 400);

    let oversized_html = "x".repeat(MAX_DOCUMENT_BYTES + 1);
    let error = extract(&oversized_html).err().unwrap();
    assert_eq!(error.code, "document_too_large");
    assert_eq!(error.status, 502);

    let error = parse_media_url("https://v3-dy-o.zjcdn.com.invalid/obj/video/source.mp4", None)
        .err()
        .unwrap();
    assert_eq!(error.code, "unsupported_media_host");
}

#[test]
fn public_detail_payload_produces_title_and_image_list() {
    let detail = document(
        r#"{
            "aweme_detail": {
                "desc": "重新穿上校服",
                "image_list": [
                    {"url_list": [
                        "https://p3-sign.douyinpic.com/tos-cn-i-0813/o0.webp",
                        "https://p3-sign.douyinpic.com/tos-cn-i-0813/o0.jpg"
                    ]},
                    {"url_list": ["https://p9-sign.douyinpic.com/tos-cn-i-0813/o1.webp"]}
                ]
            }
        }"#,
    );
    let mut post = Post::new();
    collect_title_and_images(&detail, &mut post);
    assert_eq!(post.title.as_deref(), Some("重新穿上校服"));
    assert_eq!(post.images.len(), 3);
    assert_eq!(post.images[0].index, 0);
    assert!(post.images[2].url.ends_with("o1.webp"));
}

#[test]
fn public_document_label_drops_query_and_fragment() {
    let url = WebUrl::parse("https://v.douyin.com/a/?source=copy#fragment").unwrap();
    assert_eq!(public_document_label(&url), "https://v.douyin.com/a/");
}

#[test]
fn scores_follow_the_points_of_source_address_and_metadata() {
    let html = format!(
        r#"<script type="application/json">{{"video":{{"width":1920,"height":1080,"bit_rate":999999,"play_addr":{{"url_list":["{CDN_URL}"]}}}}}}</script>"#
    );
    let result = extract(&html).unwrap_or_else(|error| panic!("{error:?}"));
    let stats = ExtractionStats { scripts: 1, parsed_payloads: 1, visited_nodes: 8 };
    assert_eq!(result.stats, stats);
    assert!(result.warnings.is_empty());
    let candidates = ranked(result.candidates);
    assert_eq!(candidates.len(), 1);
    // 92 for the source, 20 for the host, 16, 14 and 10 for the address, 12 for
    // the bit rate, 6 for the size.
    assert_eq!(candidates[0].score, 17_000);
    assert_eq!(candidates[0].source_path, "application/json.video.play_addr");
    assert_eq!(candidates[0].evidence, ["play_addr", "cdn-media"]);
}

#[test]
fn a_page_without_documents_is_warned_of() {
    let result = extract("<p>nothing</p>").unwrap_or_else(|error| panic!("{error:?}"));
    assert_eq!(
        result.warnings,
        ["No supported public hydration payload was found in the document."]
    );
    assert_eq!(result.stats.scripts, 0);
    assert_eq!(ranked(result.candidates).len(), 0);
}

#[test]
fn ranks_go_by_score_bit_rate_area_and_order() {
    let address = |number: usize| format!("https://a.zjcdn.com/video/{number}.mp4");
    let html = format!(
        r#"<script type="application/json">[
            {{"width":10,"height":10,"bit_rate":"5","play_addr":"{}"}},
            {{"width":20,"height":10,"bit_rate":"5","play_addr":"{}"}},
            {{"width":10,"height":20,"bit_rate":"5","play_addr":"{}"}},
            {{"width":10,"height":10,"bit_rate":7,"play_addr":"{}"}}
        ]</script>"#,
        address(0),
        address(1),
        address(2),
        address(3),
    );
    let result = extract(&html).unwrap_or_else(|error| panic!("{error:?}"));
    let urls: Vec<String> =
        ranked(result.candidates).into_iter().map(|candidate| candidate.url).collect();
    assert_eq!(urls, [address(3), address(1), address(2), address(0)]);
}

/// A document of nested lists around an object that names a media address.
fn nested(levels: usize) -> Json {
    document(&format!(
        r#"{}{{"play_addr":"{CDN_URL}"}}{}"#,
        "[".repeat(levels),
        "]".repeat(levels)
    ))
}

#[test]
fn documents_are_visited_to_a_limited_depth() {
    let found = |levels: usize| {
        extract_video_candidates_from_value(&nested(levels), "d", None).candidates.len()
    };
    assert_eq!((found(0), found(64), found(65)), (1, 1, 0));
}

#[test]
fn a_limited_number_of_values_is_visited() {
    let many = document(&format!("[{}0]", "0,".repeat(60_000)));
    let result = extract_video_candidates_from_value(&many, "d", None);
    assert_eq!(result.stats.visited_nodes, 50_001);
    let few = document("[0,[0,{}]]");
    let result = extract_video_candidates_from_value(&few, "d", None);
    assert_eq!(result.stats.visited_nodes, 5);
}

#[test]
fn only_the_objects_of_the_requested_video_are_visited() {
    let page = |id: &str| {
        document(&format!(
            r#"[{{"aweme_id":"{id}","video":{{"play_addr":"{CDN_URL}"}}}},
                {{"aweme_id":"8","video":{{"play_addr":"{PLAYWM_URL}"}}}}]"#
        ))
    };
    let found = |id: &str, video: Option<&str>| {
        let result = extract_video_candidates_from_value(&page(id), "d", video);
        ranked(result.candidates).into_iter().map(|candidate| candidate.source_path).collect::<Vec<_>>()
    };
    assert_eq!(found("7", Some("7")), ["d[0].video.play_addr"]);
    assert_eq!(found("9", Some("7")).len(), 0);
    assert_eq!(found("7", None), ["d[0].video.play_addr", "d[1].video.play_addr"]);
}

#[test]
fn image_posts_stop_at_a_number_of_images() {
    let address = |number: usize| format!(r#""https://p3.douyinpic.com/{number}.jpg""#);
    let list = (0..60).map(address).collect::<Vec<_>>().join(",");
    let detail = document(&format!(
        r#"[{{"images":[{list}]}},{{"desc":"late","images":["https://p3.douyinpic.com/x.jpg"]}}]"#
    ));
    let mut post = Post::new();
    collect_title_and_images(&detail, &mut post);
    assert_eq!(post.images.len(), 60);
    assert!(post.images.iter().enumerate().all(|(index, image)| image.index == index));
    assert!(post.title.is_none());
}
