//! The decoding of texts, markup, scripts and addresses.
use share_resolver::address::{
    accept_media_url, canonical_video_document, check_candidate_url, extract_video_id,
    find_link, host_matches, media_classification, named_hostname, normalize_candidate_url,
    normalize_image_url, playback_variant_for_url, public_video_detail_url, read_candidate_url,
    validate_download_url, validate_image_download_url, Directness,
};
use share_resolver::candidates::{
    candidate_score, finite_number, first_string, metadata_from_record, normalized_key,
    source_info, CandidateMetadata, SourceInfo,
};
use share_resolver::collect::{collect_element, Collection};
use share_resolver::decode::{
    decode_backslash_escapes, decode_entity, decode_escape, decode_html_entities,
    parse_signed, parse_unsigned,
};
use share_resolver::errors::ResolveError;
use share_resolver::json::{
    extract_address_urls, parse_json_payload, take_out, Json, JsonMember, JsonNumber, JsonText,
    Reading,
};
use share_resolver::markup::{
    attributes_of_matches, collect_structured_payloads, find_attribute, parse_attributes,
};
use share_resolver::ranking::{extend_unique, max_option, merge_all, Candidate};
use share_resolver::roots::find_video_roots;
use share_resolver::script::balanced_json_after_assignment;
use share_resolver::text::{
    contains, decimal_of, ends_with, signed_decimal_of, split, tail_after, to_lower, trim,
};
use share_resolver::weburl::WebUrl;

fn url(text: &str) -> WebUrl {
    WebUrl::parse(text).expect(text)
}

fn text(value: &str) -> Json {
    Json::Text(JsonText { text: value.to_string(), reading: None })
}

fn member(key: &str, value: Json) -> JsonMember {
    JsonMember { key: key.to_string(), value }
}

fn reading(place: i64, bonus: u16) -> Reading {
    Reading { place, bonus }
}

#[test]
fn texts_are_trimmed_split_and_searched() {
    assert_eq!(trim("\u{3000} a b\t\n"), "a b");
    assert_eq!(split("a,,b", ','), ["a", "", "b"]);
    assert_eq!(split("", ','), [""]);
    assert_eq!(tail_after("a.b.c", '.'), "c");
    assert_eq!(tail_after("abc", '.'), "abc");
    assert_eq!(to_lower("ÀB"), "Àb");
    assert!(contains("abcabd", "abd") && !contains("ab", "abc"));
    assert!(ends_with("a.mp4", ".mp4") && !ends_with("mp4", ".mp4"));
    assert_eq!(decimal_of(u64::MAX), "18446744073709551615");
    assert_eq!(signed_decimal_of(i64::MIN), "-9223372036854775808");
    assert_eq!(signed_decimal_of(0), "0");
}

#[test]
fn numbers_are_read_as_integers_are() {
    assert_eq!(parse_unsigned("+255", 10, 255), Some(255));
    assert_eq!(parse_unsigned("256", 10, 255), None);
    assert_eq!(parse_unsigned("fF", 16, 255), Some(255));
    for refused in ["", "+", "-1", "1 ", "0x1"] {
        assert_eq!(parse_unsigned(refused, 10, u64::MAX), None, "{refused}");
    }
    assert_eq!(parse_signed("-9223372036854775808"), Some(i64::MIN));
    assert_eq!(parse_signed("9223372036854775807"), Some(i64::MAX));
    assert_eq!(parse_signed("-0"), Some(0));
    for refused in ["", "-", "+", "-+1", "9223372036854775808", "--1"] {
        assert_eq!(parse_signed(refused), None, "{refused}");
    }
}

#[test]
fn entities_are_decoded_once() {
    assert_eq!(decode_html_entities("a&amp;b&LT;&gt;&quot;&apos;"), "a&b<>\"'");
    assert_eq!(decode_html_entities("&#65;&#x42;&#X43;"), "ABC");
    assert_eq!(decode_html_entities("&amp;lt;"), "&lt;");
    assert_eq!(decode_html_entities("&nbsp;&#xd800;&#99999999999;"), "&nbsp;&#xd800;&#99999999999;");
    assert_eq!(decode_entity("&#x4E2D;", "#x4E2D"), "中");
    assert_eq!(decode_entity("&amp;", "AMP"), "&");
    assert_eq!(decode_entity("&#1114112;", "#1114112"), "&#1114112;");
}

#[test]
fn escapes_are_decoded_in_turn() {
    assert_eq!(decode_backslash_escapes(r"https:\/\/a/b\x2fc"), "https://a/b/c");
    assert_eq!(decode_backslash_escapes(r"\ud800\u12"), r"\ud800\u12");
    assert_eq!(decode_escape(r"\u0041", "0041"), "A");
    assert_eq!(decode_escape(r"\udfff", "dfff"), r"\udfff");
}

#[test]
fn texts_without_marks_are_left_as_they_are() {
    for plain in ["", "a;b#c", "no marks 中"] {
        assert_eq!(decode_html_entities(plain), plain);
        assert_eq!(decode_backslash_escapes(plain), plain);
    }
    assert_eq!(decode_html_entities("&&amp;&#;&#x;&amp"), "&&&#;&#x;&amp");
    assert_eq!(decode_backslash_escapes(r"\\u0041\x4\X41"), r"\A\x4\X41");
}

#[test]
fn attributes_are_read_with_any_quotes() {
    let attributes = parse_attributes(r#" ID="a" type='b' data-x=c async id=d"#);
    assert_eq!(find_attribute(&attributes, "id").as_deref(), Some("d"));
    assert_eq!(find_attribute(&attributes, "type").as_deref(), Some("b"));
    assert_eq!(find_attribute(&attributes, "data-x").as_deref(), Some("c"));
    assert_eq!(find_attribute(&attributes, "async").as_deref(), Some(""));
    assert_eq!(find_attribute(&attributes, "href"), None);
    let found = vec![vec![Some("x".to_string()), Some("X".to_string()), None, None, None]];
    assert_eq!(find_attribute(&attributes_of_matches(&found), "x").as_deref(), Some(""));
}

#[test]
fn assigned_documents_are_cut_out_of_scripts() {
    let script = r#"window._ROUTER_DATA =  {"a":"}\"","b":[1,{}]}; done()"#;
    assert_eq!(
        balanced_json_after_assignment(script, "window._ROUTER_DATA").as_deref(),
        Some(r#"{"a":"}\"","b":[1,{}]}"#)
    );
    assert_eq!(balanced_json_after_assignment("x=[1,[2]]", "x").as_deref(), Some("[1,[2]]"));
    for script in ["x", "x=", "x=1", "x={", "x={]", "x==[]", r#"x={"}"#] {
        assert_eq!(balanced_json_after_assignment(script, "x"), None, "{script}");
    }
}

#[test]
fn payloads_are_decoded_before_they_are_parsed() {
    assert!(matches!(parse_json_payload(" {&quot;a&quot;:1} ", false), Some(Json::Object(_))));
    assert!(matches!(parse_json_payload("%7B%22a%22%3A1%7D", false), Some(Json::Object(_))));
    assert!(matches!(parse_json_payload("%7B%7D", true), Some(Json::Object(_))));
    assert!(matches!(parse_json_payload(r#""\"[]\"""#, false), Some(Json::Array(_))));
    assert!(parse_json_payload("%ff", true).is_none());
    assert!(parse_json_payload("{", false).is_none());
    assert!(take_out(text("no document"), 1).is_none());
    assert!(matches!(take_out(text("no document"), 0), Some(Json::Text(_))));
}

#[test]
fn documents_keep_their_numbers_and_the_order_of_their_members() {
    match parse_json_payload(r#"{"b":1,"a":-2.50,"c":99999999999999999999}"#, false) {
        Some(Json::Object(members)) => {
            let keys: Vec<&str> = members.iter().map(|member| member.key.as_str()).collect();
            assert_eq!(keys, ["a", "b", "c"]);
            match (&members[0].value, &members[1].value) {
                (Json::Number(first), Json::Number(second)) => {
                    assert_eq!((first.text.as_str(), first.integer), ("-2.5", None));
                    assert_eq!((second.text.as_str(), second.integer), ("1", Some(1)));
                }
                _ => panic!("numbers"),
            }
        }
        _ => panic!("an object"),
    }
}

#[test]
fn scripts_of_known_kinds_hold_documents() {
    let html = r#"
        <script>var SIGI_STATE = 1;</script>
        <script id="RENDER_DATA">%7B%22a%22%3A1%7D</script>
        <script type="application/ld+json" id="x">[1]</script>
        <script type="text/plain">[2]</script>
        <script></script>"#;
    let page = collect_structured_payloads(html);
    assert_eq!(page.scripts(), 5);
    let sources: Vec<&str> = page.payloads().iter().map(|payload| payload.source.as_str()).collect();
    assert_eq!(sources, ["RENDER_DATA", "x"]);
}

#[test]
fn addresses_are_found_in_lists_and_objects() {
    let addresses = |value: &Json| {
        let mut output = vec!["kept".to_string()];
        extract_address_urls(value, &mut output);
        output
    };
    assert_eq!(addresses(&text("a")), ["kept", "a"]);
    assert_eq!(addresses(&Json::Array(vec![text("a"), Json::Null, text("b")])), ["kept", "a", "b"]);
    let lists = Json::Object(vec![
        member("url", text("u")),
        member("urls", Json::Array(vec![text("third")])),
        member("url_list", Json::Array(vec![text("first")])),
    ]);
    assert_eq!(addresses(&lists), ["kept", "first"]);
    let single = Json::Object(vec![member("urls", text("no list")), member("url", text("u"))]);
    assert_eq!(addresses(&single), ["kept", "u"]);
    assert_eq!(addresses(&Json::Bool(true)), ["kept"]);
}

#[test]
fn the_requested_video_is_found_by_its_number() {
    let root = |id: Json| {
        Json::Object(vec![member("aweme_id", id), member("video", Json::Object(Vec::new()))])
    };
    let number = JsonNumber { text: "7".to_string(), integer: Some(7), reading: None };
    let document = Json::Array(vec![
        root(text("7")),
        root(Json::Number(number)),
        root(text("8")),
        Json::Object(vec![member("awemeId", text("7"))]),
    ]);
    let (roots, identified) = find_video_roots(&document, "7");
    assert_eq!(roots.len(), 2);
    assert!(identified);
    let other = text("7");
    let (roots, identified) = find_video_roots(&other, "7");
    assert!(roots.is_empty() && !identified);
}

#[test]
fn roots_are_found_in_the_order_of_the_document() {
    let root = |note: &str, inner: Json| {
        Json::Object(vec![
            member("aweme_id", text("7")),
            member("note", text(note)),
            member("video", Json::Object(vec![member("inner", inner)])),
        ])
    };
    let document = Json::Array(vec![root("a", root("b", Json::Null)), root("c", Json::Null)]);
    let (roots, identified) = find_video_roots(&document, "7");
    assert!(identified);
    let notes: Vec<String> = roots
        .iter()
        .map(|root| match root {
            Json::Object(members) => match &members[1].value {
                Json::Text(note) => note.text.clone(),
                _ => panic!("a note"),
            },
            _ => panic!("an object"),
        })
        .collect();
    assert_eq!(notes, ["a", "b", "c"]);
    let mut values: Vec<Json> = Vec::new();
    for _ in 0..49_999 {
        values.push(Json::Null);
    }
    values.push(root("last", Json::Null));
    let document = Json::Array(values);
    let (roots, _) = find_video_roots(&document, "7");
    assert_eq!(roots.len(), 1);
    let mut values: Vec<Json> = Vec::new();
    for _ in 0..50_000 {
        values.push(Json::Null);
    }
    values.push(root("past the limit", Json::Null));
    let document = Json::Array(values);
    let (roots, identified) = find_video_roots(&document, "7");
    assert!(roots.is_empty() && !identified);
}

#[test]
fn no_character_is_normalized_to_a_mark_or_a_capital() {
    for character in (0..=0x10ffff_u32).filter_map(char::from_u32) {
        let mut bytes = [0_u8; 4];
        let key = normalized_key(character.encode_utf8(&mut bytes));
        let left = |found: char| matches!(found, '-' | '_' | '.') || found.is_ascii_uppercase();
        assert!(!key.contains(left), "{character:?}");
    }
}

#[test]
fn sources_are_known_by_their_normalized_names() {
    assert_eq!(normalized_key("Play_Addr-H.264"), "playaddrh264");
    assert_eq!(normalized_key("İ"), "i\u{307}");
    for key in ["play_addr_h264", "playAddrH264", "Play-Addr.H264"] {
        assert_eq!(normalized_key(key), "playaddrh264");
    }
    let parts = format!("{}{}", normalized_key("Play-"), normalized_key("_AddrÉ"));
    assert_eq!(normalized_key("Play-_AddrÉ"), parts);
    assert_eq!(normalized_key(&parts), parts);
    for (key, kind, points) in [
        ("playaddrh264", "play", 96),
        ("playaddr", "play", 92),
        ("playaddrbytevc1", "play", 88),
        ("videourl", "video-url", 72),
        ("contenturl", "video-url", 70),
        ("downloadaddr", "download", 52),
    ] {
        let info = source_info(key).unwrap();
        assert_eq!((info.kind, info.points), (kind, points));
    }
    assert!(source_info("cover").is_none());
}

#[test]
fn metadata_is_read_from_any_of_its_names() {
    let number = |place: i64| {
        Json::Number(JsonNumber {
            text: "1".to_string(),
            integer: None,
            reading: Some(reading(place, 10)),
        })
    };
    let members = vec![
        member("bitRate", number(3)),
        member("width", number(1)),
        member("codecType", text("h264")),
        member("gear_name", text("normal")),
    ];
    let metadata = metadata_from_record(&members);
    assert_eq!(metadata.bitrate, Some(reading(3, 10)));
    assert_eq!(metadata.width, Some(reading(1, 10)));
    assert_eq!(metadata.height, None);
    assert_eq!(metadata.codec.as_deref(), Some("h264"));
    assert_eq!(metadata.format.as_deref(), Some("normal"));
    assert_eq!(finite_number(Some(&Json::Null)), None);
    assert_eq!(finite_number(Some(&number(2))), Some(reading(2, 10)));
    assert_eq!(first_string(&members, "codec", "width", "gear_name").as_deref(), Some("normal"));
}

#[test]
fn unmarked_playback_scores_above_marked_playback() {
    let score = |address: &str| {
        let address = url(address);
        let directness = media_classification(&address);
        candidate_score(source_info("playaddr").unwrap(), &address, directness, &CandidateMetadata::none())
    };
    let clean = score("https://aweme.snssdk.com/aweme/v1/play/?video_id=1");
    let marked = score("https://aweme.snssdk.com/aweme/v1/playwm/?video_id=1");
    assert_eq!((clean, marked), (9200, 5700));
    assert_eq!(score("https://aweme.snssdk.com/aweme/v1/play/?video_id=1&watermark=1"), 5700);
    assert_eq!(score("https://a.example/"), 7200);
    let heavy = SourceInfo { kind: "play", points: 50_000_000 };
    let address = url("https://a.example/");
    let heavy = candidate_score(heavy, &address, Directness::Unknown, &CandidateMetadata::none());
    assert_eq!(heavy, 4_999_998_000);
}

#[test]
fn hosts_match_whole_labels() {
    assert!(host_matches("zjcdn.com", "zjcdn.com"));
    assert!(host_matches("a.zjcdn.com", "zjcdn.com"));
    assert!(!host_matches("evilzjcdn.com", "zjcdn.com"));
    assert_eq!(named_hostname(&url("https://A.Example/")).unwrap(), "a.example");
    assert_eq!(named_hostname(&url("https://127.0.0.1/")).unwrap_err().error, "The URL must use a named host.");
    assert_eq!(named_hostname(&url("data:x")).unwrap_err().error, "The URL must include a host.");
}

#[test]
fn urls_are_read_by_their_components() {
    let parsed = url("https://user:pw@A.example:8443/p/q?x=1&x=%20#f");
    assert_eq!(parsed.scheme(), "https");
    assert_eq!(parsed.username(), "user");
    assert!(parsed.has_password());
    assert_eq!(parsed.host().as_deref(), Some("a.example"));
    assert_eq!(parsed.domain().as_deref(), Some("a.example"));
    assert_eq!(parsed.port(), Some(8443));
    assert_eq!(parsed.origin(), "https://a.example:8443");
    assert_eq!(parsed.path(), "/p/q");
    assert_eq!(parsed.query().as_deref(), Some("x=1&x=%20"));
    assert!(parsed.has_pair("x", " ") && !parsed.has_pair("x", "2"));
    assert_eq!(parsed.first_value("x").as_deref(), Some("1"));
    assert_eq!(parsed.query_pairs().len(), 2);
    assert_eq!(parsed.join("../r?y").unwrap().as_str(), "https://user:pw@a.example:8443/r?y");
    assert_eq!(parsed.duplicate().to_text(), parsed.as_str());
    assert!(url("https://a.example:443/").port().is_none());
    assert_eq!(url("https://a.example:443/").origin(), "https://a.example");
    assert_eq!(url("https://[::1]:1/").origin(), "https://[::1]:1");
    assert!(WebUrl::parse("no url").is_none());
    let nested = "blob:".repeat(200_000);
    assert_eq!(url(&nested).scheme(), "blob");
    assert!(normalize_candidate_url(&nested).is_none());
    assert!(url("https://a.example/").join(&nested).is_some());
}

#[test]
fn videos_have_documents_and_details() {
    assert_eq!(
        canonical_video_document("42").ok().unwrap().as_str(),
        "https://www.iesdouyin.com/share/video/42/"
    );
    for id in ["42", "0", "7312345678901234567", &"9".repeat(70_000)] {
        let shown = extract_video_id(&canonical_video_document(id).ok().unwrap());
        assert_eq!(shown.as_deref(), Some(id));
    }
    for id in ["", "4a", "４"] {
        assert_eq!(canonical_video_document(id).err().unwrap().code, "invalid_video_id");
    }
    let document = url("https://www.douyin.com/video/42?x=1#f");
    let detail = public_video_detail_url(&document, "42").ok().unwrap();
    assert_eq!(detail.origin(), "https://www.douyin.com");
    assert_eq!(detail.path(), "/aweme/v1/aweme/detail/");
    assert_eq!(
        detail.query().as_deref(),
        Some("aweme_id=42&aid=6383&device_platform=web&version_code=280500&version_name=28.5.0")
    );
    assert!(!detail.as_str().contains('#'));
    assert_eq!(public_video_detail_url(&document, "x").err().unwrap().code, "invalid_video_id");
}

#[test]
fn the_first_link_ends_where_a_link_may() {
    assert_eq!(find_link("see hTTps://a/b>c http://d").as_deref(), Some("hTTps://a/b"));
    assert_eq!(find_link("http:// https://\u{3000}x httpſ://y").as_deref(), Some("httpſ://y"));
    assert_eq!(find_link("xhttp://a`").as_deref(), Some("http://a"));
    assert_eq!(find_link("ftp://a http:/b https"), None);
}

#[test]
fn videos_are_found_in_paths_and_queries() {
    let found = |text: &str| extract_video_id(&url(text));
    assert_eq!(found("https://a.example/share/video/12x/note/3").as_deref(), Some("12"));
    assert_eq!(found("https://a.example/video/x/note/34/").as_deref(), Some("34"));
    assert_eq!(found("https://a.example/?aweme_id=8&modal_id=7").as_deref(), Some("7"));
    assert_eq!(found("https://a.example/videos/1?aweme_id=8").as_deref(), Some("8"));
    assert_eq!(found("https://a.example/video/"), None);
}

#[test]
fn media_urls_are_classified_by_host_path_and_query() {
    for (address, directness, variant) in [
        ("https://aweme.snssdk.com/aweme/v1/play/?a", Directness::PlayEndpoint, Some("play")),
        ("https://aweme-hl.snssdk.com/aweme/v1/playwm/", Directness::PlayEndpoint, Some("playwm")),
        ("https://aweme.snssdk.com/aweme/v1/play/x", Directness::PlayEndpoint, None),
        ("https://a.douyinvod.com/video/x", Directness::CdnMedia, Some("direct")),
        ("https://bytecdn.cn/x?mime_type=video_mp4", Directness::CdnMedia, Some("direct")),
        ("https://a.bytecdntp.com/x.MOV", Directness::CdnMedia, Some("direct")),
        ("https://a.zjcdn.com/x", Directness::Unknown, None),
        ("https://a.example/video/x.mp4", Directness::Unknown, None),
        ("data:video/mp4", Directness::Unknown, None),
    ] {
        let parsed = url(address);
        assert_eq!(media_classification(&parsed), directness, "{address}");
        assert_eq!(playback_variant_for_url(&parsed).as_deref(), variant, "{address}");
    }
    assert_eq!(accept_media_url(None).err().unwrap().code, "invalid_media_redirect");
    assert!(validate_download_url("https://a.zjcdn.com/video/a.mp4").is_ok());
    assert_eq!(Directness::Unknown.as_str(), "unknown");
}

#[test]
fn candidate_addresses_are_decoded_and_checked() {
    let normalized = |value: &str| normalize_candidate_url(value).map(|url| url.to_text());
    assert_eq!(
        normalized(" https:\\u002F\\/a.example\\x2fv?a=1&amp;b=2#f ").as_deref(),
        Some("https://a.example/v?a=1&b=2")
    );
    assert_eq!(normalized("https%3A%2F%2Fa.example%2Fv").as_deref(), Some("https://a.example/v"));
    assert_eq!(normalized("//a.example/v").as_deref(), Some("https://a.example/v"));
    for refused in [
        "http://a.example/v",
        "https://u@a.example/v",
        "https://127.0.0.1/v",
        "https://a.example/a.WEBP",
        "https://a.example/poster/v",
        "https%3A%2F%2Fa.example%2F%ff",
        "v.mp4",
    ] {
        assert_eq!(normalized(refused), None, "{refused}");
    }
    assert!(read_candidate_url("https://a.example/v").is_some());
    assert!(check_candidate_url(&url("https://a.example/avatar")).is_none());
}

#[test]
fn image_addresses_are_on_image_hosts() {
    let normalized = |value: &str| normalize_image_url(value).map(|url| url.to_text());
    assert_eq!(
        normalized("//p3.douyinpic.com/a.jpg?x&amp;y#f").as_deref(),
        Some("https://p3.douyinpic.com/a.jpg?x&y#f")
    );
    assert_eq!(normalized("https://a.zjcdn.com/a.jpg"), None);
    assert_eq!(
        validate_image_download_url("https://a.example/a.jpg").err().unwrap().code,
        "unsupported_image_host"
    );
}

#[test]
fn media_elements_hold_candidates() {
    let mut collection = Collection::new();
    collect_element(r#" name="OG:Video:URL" content="https://a.example/v""#, true, &mut collection);
    collect_element(r#" property="og:image" content="https://a.example/w""#, true, &mut collection);
    collect_element(r#" src="https://a.example/x""#, false, &mut collection);
    assert_eq!(collection.found.len(), 2);
    assert_eq!(collection.found[0].source_path, "meta[og:video:url]");
    assert_eq!(collection.found[0].score, 4800);
    assert_eq!(collection.found[1].source_path, "html-media-src");
    assert_eq!(collection.found[1].order, 1);
    assert_eq!(collection.nodes, 0);
}

#[test]
fn findings_of_one_address_are_merged() {
    let candidate = |score: i64, bitrate: Option<Reading>, source: &str, order: usize| Candidate {
        url: "https://a.example/v".to_string(),
        source_path: source.to_string(),
        source_kind: "play".to_string(),
        directness: Directness::Unknown,
        playback_variant: None,
        width: None,
        height: None,
        bitrate,
        codec: None,
        format: None,
        score,
        evidence: vec!["e".to_string()],
        sources: vec![source.to_string()],
        order,
        area: 0,
    };
    let set = merge_all(vec![
        candidate(1, Some(reading(5, 0)), "a", 0),
        candidate(3, Some(reading(4, 0)), "b", 1),
    ]);
    assert_eq!(set.len(), 1);
    let merged = set.get(0);
    assert_eq!((merged.score, merged.order), (3, 0));
    assert_eq!(merged.bitrate, Some(reading(5, 0)));
    assert_eq!(merged.source_path, "a");
    assert_eq!(merged.sources, ["a", "b"]);
    assert_eq!(merged.evidence, ["e"]);
    assert_eq!(max_option(None, Some(reading(1, 2))), Some(reading(1, 2)));
}

#[test]
fn texts_are_joined_without_repeats() {
    let mut target = vec!["a".to_string()];
    extend_unique(&mut target, &vec!["b".to_string(), "a".to_string(), "b".to_string()]);
    assert_eq!(target, ["a", "b"]);
}

#[test]
fn errors_carry_a_code_a_message_and_a_status() {
    let error = ResolveError::new("c", "m", 422);
    assert_eq!((error.code.as_str(), error.error.as_str(), error.status), ("c", "m", 422));
    assert_eq!(ResolveError::bad_request("c", "m").status, 400);
    assert_eq!(ResolveError::upstream("c", "m").status, 502);
    assert_eq!(error.message(), "m");
}
