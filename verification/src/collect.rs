//! The collection of media candidates from documents and from HTML.
use crate::address::{
    candidate_url, classified, directness_text, media_classification, normalize_candidate_url,
    playback_variant, playback_variant_for_url,
};
use crate::candidates::{
    candidate_score, key_normalized, metadata_from_record, metadata_of, no_metadata,
    normalized_key, score_of, source_info, source_of, CandidateMetadata, MetadataModel, SourceInfo,
    SourceModel,
};
use crate::errors::{upstream, ErrorModel, ResolveError};
use crate::json::{address_texts, extract_address_urls, Json, JsonMember};
use crate::markup::{
    attribute, attributes_in, find_attribute, page_payloads, parse_attributes, payload_model,
    payloads_model, scripts_in, Page,
};
use crate::patterns::{
    find_all, group_or_empty, group_text, groups_model, matches_model, regex_matches, texts_model,
    Groups,
};
use crate::ranking::{
    candidates_model, merge_all, merged_all, Candidate, CandidateModel, CandidateSet,
};
use crate::readings::{alike_found, readings_only_weigh_pages};
use crate::roots::{
    find_video_roots, roots_model, video_search, MAX_JSON_LEVELS, MAX_JSON_NODES,
};
use crate::text::{decimal, decimal_of, join2, join3, lower, owned, same, to_lower};
use crate::weburl::{clone_optional, optional_url, UrlModel, WebUrl};
use vstd::prelude::*;
use vstd::string::*;

verus! {

/// What has been found, in order, and how many values were visited.
#[verifier::ext_equal]
pub struct Collected {
    pub found: Seq<CandidateModel>,
    pub nodes: nat,
}

/// A candidate as it is found.
pub open spec fn found_candidate(
    source: SourceModel,
    url: UrlModel,
    source_path: Seq<char>,
    metadata: MetadataModel,
    evidence: Seq<char>,
    origin: Seq<char>,
    order: nat,
) -> CandidateModel {
    CandidateModel {
        url: url.text(),
        source_path,
        source_kind: source.kind,
        directness: classified(url),
        playback_variant: playback_variant(url),
        width: metadata.width,
        height: metadata.height,
        bitrate: metadata.bitrate,
        codec: metadata.codec,
        format: metadata.format,
        score: score_of(source.points, url, classified(url), metadata) as i64,
        evidence: seq![evidence, directness_text(classified(url))],
        sources: seq![origin],
        order,
        area: 0,
    }
}

/// The findings with the first `count` addresses of a member, as far as they
/// are media candidates.
pub open spec fn with_addresses(
    addresses: Seq<Seq<char>>,
    count: nat,
    source: SourceModel,
    path: Seq<char>,
    metadata: MetadataModel,
    key: Seq<char>,
    origin: Seq<char>,
    found: Seq<CandidateModel>,
) -> Seq<CandidateModel>
    decreases count,
{
    if count == 0 {
        found
    } else {
        let before = with_addresses(
            addresses,
            (count - 1) as nat,
            source,
            path,
            metadata,
            key,
            origin,
            found,
        );
        match candidate_url(addresses[count - 1]) {
            Some(url) => before.push(
                found_candidate(source, url, path, metadata, key, origin, before.len()),
            ),
            None => before,
        }
    }
}

/// The findings with those of a member's addresses, where its name says that it
/// holds media addresses.
pub open spec fn with_member(
    item: JsonMember,
    path: Seq<char>,
    metadata: MetadataModel,
    origin: Seq<char>,
    found: Seq<CandidateModel>,
) -> Seq<CandidateModel> {
    match source_of(key_normalized(item.key@)) {
        Some(source) => with_addresses(
            address_texts(item.value),
            address_texts(item.value).len(),
            source,
            path,
            metadata,
            item.key@,
            origin,
            found,
        ),
        None => found,
    }
}

pub open spec fn item_path(path: Seq<char>, index: nat) -> Seq<char> {
    path + "["@ + decimal(index) + "]"@
}

pub open spec fn member_path(path: Seq<char>, key: Seq<char>) -> Seq<char> {
    path + "."@ + key
}

/// What is collected after a value of which `levels` levels are visited.
pub open spec fn visited(
    node: Json,
    path: Seq<char>,
    origin: Seq<char>,
    levels: nat,
    state: Collected,
) -> Collected
    decreases levels, 0nat,
{
    if levels == 0 || state.nodes > MAX_JSON_NODES {
        state
    } else {
        let counted = Collected { nodes: state.nodes + 1, ..state };
        match node {
            Json::Array(items) => visited_items(
                items@,
                items@.len(),
                path,
                origin,
                (levels - 1) as nat,
                counted,
            ),
            Json::Object(members) => visited_members(
                members@,
                members@.len(),
                metadata_of(members@),
                path,
                origin,
                (levels - 1) as nat,
                counted,
            ),
            _ => counted,
        }
    }
}

pub open spec fn visited_items(
    items: Seq<Json>,
    count: nat,
    path: Seq<char>,
    origin: Seq<char>,
    levels: nat,
    state: Collected,
) -> Collected
    decreases levels, count + 1,
{
    if count == 0 {
        state
    } else {
        visited(
            items[count - 1],
            item_path(path, (count - 1) as nat),
            origin,
            levels,
            visited_items(items, (count - 1) as nat, path, origin, levels, state),
        )
    }
}

pub open spec fn visited_members(
    members: Seq<JsonMember>,
    count: nat,
    metadata: MetadataModel,
    path: Seq<char>,
    origin: Seq<char>,
    levels: nat,
    state: Collected,
) -> Collected
    decreases levels, count + 1,
{
    if count == 0 {
        state
    } else {
        let before = visited_members(
            members,
            (count - 1) as nat,
            metadata,
            path,
            origin,
            levels,
            state,
        );
        let item = members[count - 1];
        let child_path = member_path(path, item.key@);
        visited(
            item.value,
            child_path,
            origin,
            levels,
            Collected {
                found: with_member(item, child_path, metadata, origin, before.found),
                nodes: before.nodes,
            },
        )
    }
}

/// What is collected after the first `count` objects that hold the video.
pub open spec fn visited_roots(
    roots: Seq<Json>,
    count: nat,
    origin: Seq<char>,
    state: Collected,
) -> Collected
    decreases count,
{
    if count == 0 {
        state
    } else {
        visited(
            roots[count - 1],
            item_path(origin, (count - 1) as nat),
            origin,
            MAX_JSON_LEVELS as nat,
            visited_roots(roots, (count - 1) as nat, origin, state),
        )
    }
}

/// What is collected after a document. With a video requested, only the
/// objects that hold that video are visited; a document that names only other
/// videos adds nothing, and one that names none is visited as a whole.
pub open spec fn document_visited(
    value: Json,
    origin: Seq<char>,
    video_id: Option<Seq<char>>,
    state: Collected,
) -> Collected {
    match video_id {
        Some(id) => {
            let search = video_search(value, id);
            if search.roots.len() > 0 {
                visited_roots(search.roots, search.roots.len(), origin, state)
            } else if search.identified {
                state
            } else {
                visited(value, origin, origin, MAX_JSON_LEVELS as nat, state)
            }
        },
        None => visited(value, origin, origin, MAX_JSON_LEVELS as nat, state),
    }
}

/// What has been found, in order, and how many values were visited.
pub struct Collection {
    pub found: Vec<Candidate>,
    pub nodes: usize,
}

impl View for Collection {
    type V = Collected;

    open spec fn view(&self) -> Collected {
        Collected { found: candidates_model(self.found@), nodes: self.nodes as nat }
    }
}

pub open spec fn nothing_collected() -> Collected {
    Collected { found: Seq::empty(), nodes: 0 }
}

impl Collection {
    pub fn new() -> (collection: Collection)
        ensures
            collection@ == nothing_collected(),
    {
        let collection = Collection { found: Vec::new(), nodes: 0 };
        assert(candidates_model(collection.found@) =~= Seq::empty());
        collection
    }
}

/// Adds a candidate as it is found.
fn add_candidate(
    info: SourceInfo,
    url: &WebUrl,
    source_path: &str,
    metadata: &CandidateMetadata,
    evidence: &str,
    origin: &str,
    collection: &mut Collection,
)
    requires
        -1000 <= info.points <= 1000,
    ensures
        final(collection)@.nodes == old(collection)@.nodes,
        final(collection)@.found == old(collection)@.found.push(
            found_candidate(
                info@,
                url@,
                source_path@,
                metadata@,
                evidence@,
                origin@,
                old(collection)@.found.len(),
            ),
        ),
{
    let directness = media_classification(url);
    let score: i64 = candidate_score(info, url, directness, metadata);
    let mut evidence_list: Vec<String> = Vec::new();
    evidence_list.push(owned(evidence));
    evidence_list.push(owned(directness.as_str()));
    let mut sources: Vec<String> = Vec::new();
    sources.push(owned(origin));
    assert(texts_model(evidence_list@) =~= seq![evidence@, directness_text(directness)]);
    assert(texts_model(sources@) =~= seq![origin@]);
    let ghost before = collection@.found;
    let candidate = Candidate {
        url: url.to_text(),
        source_path: owned(source_path),
        source_kind: owned(info.kind),
        directness,
        playback_variant: playback_variant_for_url(url),
        width: metadata.width,
        height: metadata.height,
        bitrate: metadata.bitrate,
        codec: clone_optional(&metadata.codec),
        format: clone_optional(&metadata.format),
        score,
        evidence: evidence_list,
        sources,
        order: collection.found.len(),
        area: 0,
    };
    let ghost model = candidate@;
    collection.found.push(candidate);
    assert(candidates_model(collection.found@) =~= before.push(model));
}

fn add_addresses(
    addresses: &Vec<String>,
    info: SourceInfo,
    path: &str,
    metadata: &CandidateMetadata,
    key: &str,
    origin: &str,
    collection: &mut Collection,
)
    requires
        -1000 <= info.points <= 1000,
    ensures
        final(collection)@.nodes == old(collection)@.nodes,
        final(collection)@.found == with_addresses(
            texts_model(addresses@),
            addresses@.len(),
            info@,
            path@,
            metadata@,
            key@,
            origin@,
            old(collection)@.found,
        ),
{
    let mut at: usize = 0;
    while at < addresses.len()
        invariant
            at <= addresses@.len(),
            -1000 <= info.points <= 1000,
            collection@.nodes == old(collection)@.nodes,
            collection@.found == with_addresses(
                texts_model(addresses@),
                at as nat,
                info@,
                path@,
                metadata@,
                key@,
                origin@,
                old(collection)@.found,
            ),
        decreases addresses@.len() - at,
    {
        assert(texts_model(addresses@)[at as int] == addresses@[at as int]@);
        if let Some(url) = normalize_candidate_url(addresses[at].as_str()) {
            add_candidate(info, &url, path, metadata, key, origin, collection);
        }
        at = at + 1;
    }
}

fn add_member(
    item: &JsonMember,
    path: &str,
    metadata: &CandidateMetadata,
    origin: &str,
    collection: &mut Collection,
)
    ensures
        final(collection)@.nodes == old(collection)@.nodes,
        final(collection)@.found == with_member(
            *item,
            path@,
            metadata@,
            origin@,
            old(collection)@.found,
        ),
{
    let name = normalized_key(item.key.as_str());
    if let Some(info) = source_info(name.as_str()) {
        let mut addresses: Vec<String> = Vec::new();
        extract_address_urls(&item.value, &mut addresses);
        assert(texts_model(addresses@) =~= address_texts(item.value));
        add_addresses(&addresses, info, path, metadata, item.key.as_str(), origin, collection);
    }
}

fn path_of_item(path: &str, index: usize) -> (text: String)
    ensures
        text@ == item_path(path@, index as nat),
{
    let digits = decimal_of(index as u64);
    let mut text = join2(path, "[");
    text.append(digits.as_str());
    text.append("]");
    text
}

fn visit(node: &Json, path: &str, origin: &str, levels: usize, collection: &mut Collection)
    ensures
        final(collection)@ == visited(*node, path@, origin@, levels as nat, old(collection)@),
    decreases levels, 0nat,
{
    if levels == 0 || collection.nodes > MAX_JSON_NODES {
        return;
    }
    collection.nodes = collection.nodes + 1;
    let ghost counted = collection@;
    match node {
        Json::Array(items) => {
            let mut at: usize = 0;
            while at < items.len()
                invariant
                    at <= items@.len(),
                    levels > 0,
                    collection@ == visited_items(
                        items@,
                        at as nat,
                        path@,
                        origin@,
                        (levels - 1) as nat,
                        counted,
                    ),
                decreases items@.len() - at,
            {
                let child_path = path_of_item(path, at);
                visit(&items[at], child_path.as_str(), origin, levels - 1, collection);
                at = at + 1;
            }
        },
        Json::Object(members) => {
            let metadata = metadata_from_record(members);
            let mut at: usize = 0;
            while at < members.len()
                invariant
                    at <= members@.len(),
                    levels > 0,
                    metadata@ == metadata_of(members@),
                    collection@ == visited_members(
                        members@,
                        at as nat,
                        metadata@,
                        path@,
                        origin@,
                        (levels - 1) as nat,
                        counted,
                    ),
                decreases members@.len() - at,
            {
                let child_path = join3(path, ".", members[at].key.as_str());
                let ghost before = collection@;
                add_member(&members[at], child_path.as_str(), &metadata, origin, collection);
                assert(collection@ == (Collected {
                    found: with_member(
                        members@[at as int],
                        child_path@,
                        metadata@,
                        origin@,
                        before.found,
                    ),
                    nodes: before.nodes,
                }));
                visit(&members[at].value, child_path.as_str(), origin, levels - 1, collection);
                at = at + 1;
            }
        },
        _ => {},
    }
}

pub open spec fn optional_str(text: Option<&str>) -> Option<Seq<char>> {
    match text {
        Some(text) => Some(text@),
        None => None,
    }
}

/// Collects the media candidates of a document; see [`document_visited`].
pub fn collect_from_structured_value(
    value: &Json,
    source: &str,
    video_id: Option<&str>,
    collection: &mut Collection,
)
    ensures
        final(collection)@ == document_visited(
            *value,
            source@,
            optional_str(video_id),
            old(collection)@,
        ),
{
    match video_id {
        Some(id) => {
            let (roots, identified) = find_video_roots(value, id);
            assert(roots_model(roots@).len() == roots@.len());
            if roots.len() == 0 && identified {
                return;
            }
            if roots.len() == 0 {
                visit(value, source, source, MAX_JSON_LEVELS, collection);
            } else {
                let mut at: usize = 0;
                while at < roots.len()
                    invariant
                        at <= roots@.len(),
                        collection@ == visited_roots(
                            roots_model(roots@),
                            at as nat,
                            source@,
                            old(collection)@,
                        ),
                    decreases roots@.len() - at,
                {
                    let path = path_of_item(source, at);
                    assert(roots_model(roots@)[at as int] == *roots@[at as int]);
                    visit(roots[at], path.as_str(), source, MAX_JSON_LEVELS, collection);
                    at = at + 1;
                }
            }
        },
        None => visit(value, source, source, MAX_JSON_LEVELS, collection),
    }
}

/// The pattern of a `meta` element: its attributes.
pub const META_PATTERN: &'static str = r"(?is)<meta\b([^>]*)>";

/// The pattern of a `video` or `source` element: its attributes.
pub const MEDIA_PATTERN: &'static str = r"(?is)<(?:video|source)\b([^>]*)>";

/// The property that a `meta` element gives, in small letters.
pub open spec fn meta_property(attributes: Seq<(Seq<char>, Seq<char>)>) -> Seq<char> {
    match attribute(attributes, "property"@) {
        Some(property) => lower(property),
        None => match attribute(attributes, "name"@) {
            Some(name) => lower(name),
            None => Seq::empty(),
        },
    }
}

/// The property is the address of a video.
pub open spec fn is_video_property(property: Seq<char>) -> bool {
    ||| property == "og:video"@
    ||| property == "og:video:url"@
    ||| property == "og:video:secure_url"@
}

/// The candidate that an attribute of an element holds.
pub open spec fn attribute_candidate(
    attributes: Seq<(Seq<char>, Seq<char>)>,
    name: Seq<char>,
) -> Option<UrlModel> {
    match attribute(attributes, name) {
        Some(value) => candidate_url(value),
        None => None,
    }
}

/// The findings with that of a `meta` element.
pub open spec fn with_meta(
    attributes: Seq<(Seq<char>, Seq<char>)>,
    found: Seq<CandidateModel>,
) -> Seq<CandidateModel> {
    let property = meta_property(attributes);
    match attribute_candidate(attributes, "content"@) {
        Some(url) => if is_video_property(property) {
            found.push(
                found_candidate(
                    SourceModel { kind: "video-url"@, points: 68 },
                    url,
                    "meta["@ + property + "]"@,
                    no_metadata(),
                    property,
                    "html-meta"@,
                    found.len(),
                ),
            )
        } else {
            found
        },
        None => found,
    }
}

/// The findings with that of a `video` or `source` element.
pub open spec fn with_media(
    attributes: Seq<(Seq<char>, Seq<char>)>,
    found: Seq<CandidateModel>,
) -> Seq<CandidateModel> {
    match attribute_candidate(attributes, "src"@) {
        Some(url) => found.push(
            found_candidate(
                SourceModel { kind: "video-url"@, points: 66 },
                url,
                "html-media-src"@,
                no_metadata(),
                "media src"@,
                "html-media"@,
                found.len(),
            ),
        ),
        None => found,
    }
}

/// The findings with those of the first `count` elements: `meta` elements, or
/// else `video` and `source` elements.
pub open spec fn with_elements(
    elements: Seq<Seq<Option<Seq<char>>>>,
    count: nat,
    meta: bool,
    found: Seq<CandidateModel>,
) -> Seq<CandidateModel>
    decreases count,
{
    if count == 0 {
        found
    } else {
        let before = with_elements(elements, (count - 1) as nat, meta, found);
        let attributes = attributes_in(group_text(elements[count - 1], 1));
        if meta {
            with_meta(attributes, before)
        } else {
            with_media(attributes, before)
        }
    }
}

/// What is collected after the media elements of a page.
pub open spec fn page_visited(html: Seq<char>, state: Collected) -> Collected {
    let meta = regex_matches(META_PATTERN@, html);
    let media = regex_matches(MEDIA_PATTERN@, html);
    Collected {
        found: with_elements(
            media,
            media.len(),
            false,
            with_elements(meta, meta.len(), true, state.found),
        ),
        nodes: state.nodes,
    }
}

fn find_attribute_candidate(tag: &str, name: &str) -> (candidate: Option<WebUrl>)
    ensures
        optional_url(candidate) == attribute_candidate(attributes_in(tag@), name@),
{
    let attributes = parse_attributes(tag);
    match find_attribute(&attributes, name) {
        Some(value) => normalize_candidate_url(value.as_str()),
        None => None,
    }
}

fn find_meta_property(tag: &str) -> (property: String)
    ensures
        property@ == meta_property(attributes_in(tag@)),
{
    let attributes = parse_attributes(tag);
    match find_attribute(&attributes, "property") {
        Some(property) => to_lower(property.as_str()),
        None => match find_attribute(&attributes, "name") {
            Some(name) => to_lower(name.as_str()),
            None => String::new(),
        },
    }
}

/// Collects the candidate of one element, given the text of its attributes.
pub fn collect_element(tag: &str, meta: bool, collection: &mut Collection)
    ensures
        final(collection)@.nodes == old(collection)@.nodes,
        final(collection)@.found == (if meta {
            with_meta(attributes_in(tag@), old(collection)@.found)
        } else {
            with_media(attributes_in(tag@), old(collection)@.found)
        }),
{
    let nothing = CandidateMetadata::none();
    if meta {
        let property = find_meta_property(tag);
        let property = property.as_str();
        if !same(property, "og:video") && !same(property, "og:video:url") && !same(
            property,
            "og:video:secure_url",
        ) {
            return;
        }
        if let Some(url) = find_attribute_candidate(tag, "content") {
            let info = SourceInfo { kind: "video-url", points: 68 };
            let path = join3("meta[", property, "]");
            add_candidate(info, &url, path.as_str(), &nothing, property, "html-meta", collection);
        }
    } else {
        if let Some(url) = find_attribute_candidate(tag, "src") {
            let info = SourceInfo { kind: "video-url", points: 66 };
            add_candidate(
                info,
                &url,
                "html-media-src",
                &nothing,
                "media src",
                "html-media",
                collection,
            );
        }
    }
}

/// Collects the candidates of the elements that a pattern found.
pub fn collect_elements(elements: &Vec<Groups>, meta: bool, collection: &mut Collection)
    ensures
        final(collection)@.nodes == old(collection)@.nodes,
        final(collection)@.found == with_elements(
            matches_model(elements@),
            elements@.len(),
            meta,
            old(collection)@.found,
        ),
{
    let mut at: usize = 0;
    while at < elements.len()
        invariant
            at <= elements@.len(),
            collection@.nodes == old(collection)@.nodes,
            collection@.found == with_elements(
                matches_model(elements@),
                at as nat,
                meta,
                old(collection)@.found,
            ),
        decreases elements@.len() - at,
    {
        assert(matches_model(elements@)[at as int] == groups_model(elements@[at as int]@));
        let tag = group_or_empty(&elements[at], 1);
        collect_element(tag.as_str(), meta, collection);
        at = at + 1;
    }
}

/// Collects the candidates of a page's media elements; see [`page_visited`].
pub fn collect_html_media_tags(html: &str, collection: &mut Collection)
    ensures
        final(collection)@ == page_visited(html@, old(collection)@),
{
    let meta = find_all(META_PATTERN, html);
    assert(matches_model(meta@).len() == meta@.len());
    collect_elements(&meta, true, collection);
    let media = find_all(MEDIA_PATTERN, html);
    assert(matches_model(media@).len() == media@.len());
    collect_elements(&media, false, collection);
}

/// How much of a page was read.
#[derive(Debug, Clone, Copy, PartialEq, Eq, Structural)]
pub struct ExtractionStats {
    pub scripts: usize,
    pub parsed_payloads: usize,
    pub visited_nodes: usize,
}

/// The candidates of a page or a document, before they are ranked.
pub struct Extraction {
    pub candidates: CandidateSet,
    pub stats: ExtractionStats,
    pub warnings: Vec<String>,
}

/// The most bytes that a page may have.
pub const MAX_DOCUMENT_BYTES: usize = 2_097_152;

/// What is collected from one document.
pub open spec fn value_collected(value: Json, origin: Seq<char>, id: Option<Seq<char>>) -> Collected {
    document_visited(value, origin, id, nothing_collected())
}

/// The candidates of one document.
pub fn extract_video_candidates_from_value(
    value: &Json,
    source: &str,
    video_id: Option<&str>,
) -> (extraction: Extraction)
    ensures
        extraction.candidates@ == merged_all(
            value_collected(*value, source@, optional_str(video_id)).found,
            value_collected(*value, source@, optional_str(video_id)).found.len(),
        ),
        extraction.stats.scripts == 0,
        extraction.stats.parsed_payloads == 1,
        extraction.stats.visited_nodes == value_collected(
            *value,
            source@,
            optional_str(video_id),
        ).nodes,
        extraction.warnings@.len() == 0,
{
    let mut collection = Collection::new();
    collect_from_structured_value(value, source, video_id, &mut collection);
    let stats = ExtractionStats { scripts: 0, parsed_payloads: 1, visited_nodes: collection.nodes };
    assert(collection@.found.len() == collection.found@.len());
    Extraction { candidates: merge_all(collection.found), stats, warnings: Vec::new() }
}

/// What is collected from the first `count` documents of a page.
pub open spec fn payloads_visited(
    payloads: Seq<(Seq<char>, Json)>,
    count: nat,
    id: Option<Seq<char>>,
) -> Collected
    decreases count,
{
    if count == 0 {
        nothing_collected()
    } else {
        document_visited(
            payloads[count - 1].1,
            payloads[count - 1].0,
            id,
            payloads_visited(payloads, (count - 1) as nat, id),
        )
    }
}

/// What is collected from a page with these documents in its scripts.
pub open spec fn page_collected(
    html: Seq<char>,
    payloads: Seq<(Seq<char>, Json)>,
    id: Option<Seq<char>>,
) -> Collected {
    page_visited(html, payloads_visited(payloads, payloads.len(), id))
}

pub open spec fn document_too_large() -> ErrorModel {
    upstream(
        "document_too_large"@,
        "The public video document is too large to inspect."@,
    )
}

/// The page has too many bytes to be inspected.
pub open spec fn is_too_large(html: Seq<char>) -> bool {
    vstd::utf8::encode_utf8(html).len() > MAX_DOCUMENT_BYTES
}

/// What a page with so many documents warns of.
pub open spec fn page_warnings(documents: nat) -> Seq<Seq<char>> {
    if documents == 0 {
        seq!["No supported public hydration payload was found in the document."@]
    } else {
        Seq::empty()
    }
}

/// What a page with so many documents warns of.
pub fn warn_of_page(documents: usize) -> (warnings: Vec<String>)
    ensures
        texts_model(warnings@) == page_warnings(documents as nat),
        texts_model(warnings@).no_duplicates(),
{
    let mut warnings: Vec<String> = Vec::new();
    if documents == 0 {
        warnings.push(owned("No supported public hydration payload was found in the document."));
    }
    assert(texts_model(warnings@) =~= page_warnings(documents as nat));
    warnings
}

/// The candidates of a page. All but what comes from the readings of its numbers
/// is what the page's text gives.
pub fn extract_video_candidates_from_html(page: &Page, video_id: Option<&str>) -> (extraction:
    Result<Extraction, ResolveError>)
    ensures
        extraction is Err <==> is_too_large(page@.html),
        extraction matches Err(error) ==> error@ == document_too_large(),
        extraction matches Ok(extraction) ==> {
            let read = page_collected(page@.html, page@.payloads, optional_str(video_id));
            let documents = page_payloads(page@.html);
            let unread = page_collected(page@.html, documents, optional_str(video_id));
            &&& extraction.candidates@ == merged_all(read.found, read.found.len())
            &&& alike_found(
                extraction.candidates@,
                merged_all(unread.found, unread.found.len()),
            )
            &&& extraction.stats.scripts == scripts_in(page@.html).len()
            &&& extraction.stats.parsed_payloads == documents.len()
            &&& extraction.stats.visited_nodes == unread.nodes
            &&& texts_model(extraction.warnings@) == page_warnings(documents.len())
        },
{
    let html = page.html();
    if html.as_bytes().len() > MAX_DOCUMENT_BYTES {
        return Err(
            ResolveError::upstream(
                "document_too_large",
                "The public video document is too large to inspect.",
            ),
        );
    }
    let payloads = page.payloads();
    let mut collection = Collection::new();
    let mut at: usize = 0;
    while at < payloads.len()
        invariant
            at <= payloads@.len(),
            collection@ == payloads_visited(
                payloads_model(payloads@),
                at as nat,
                optional_str(video_id),
            ),
        decreases payloads@.len() - at,
    {
        assert(payloads_model(payloads@)[at as int] == payload_model(payloads@[at as int]));
        collect_from_structured_value(
            &payloads[at].value,
            payloads[at].source.as_str(),
            video_id,
            &mut collection,
        );
        at = at + 1;
    }
    assert(payloads_model(payloads@).len() == payloads@.len());
    collect_html_media_tags(html, &mut collection);
    proof {
        readings_only_weigh_pages(page@.html, page@.payloads, optional_str(video_id));
    }
    let warnings = warn_of_page(payloads.len());
    let stats = ExtractionStats {
        scripts: page.scripts(),
        parsed_payloads: payloads.len(),
        visited_nodes: collection.nodes,
    };
    assert(collection@.found.len() == collection.found@.len());
    Ok(Extraction { candidates: merge_all(collection.found), stats, warnings })
}

} // verus!
