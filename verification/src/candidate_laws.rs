//! What is collected from pages and documents, how it is weighed and joined, and
//! in what order it comes, stated by what the documents hold.
use crate::address::{candidate_url, classified, directness_text, playback_variant, Directness};
use crate::candidates::{
    key_normalized, metadata_of, no_metadata, score_of, source_of, MetadataModel, SourceModel,
};
use crate::collect::{
    document_visited, found_candidate, page_collected, page_warnings, payloads_visited, visited,
    visited_items, visited_members, visited_roots, with_addresses, with_elements, with_media,
    with_member, with_meta, Collected,
};
use crate::collection_laws::has_url;
use crate::images::PostModel;
use crate::json::{address_texts, member, Json, JsonMember, Reading};
use crate::markup::{attribute, attributes_in};
use crate::patterns::regex_matches;
use crate::ranking::{
    combined, extended, greater, merged, merged_all, ranks_before, reported, url_at, CandidateModel,
};
use crate::response::page_post;
use crate::roots::{is_root, names_some_video, video_search};
use crate::text::{decimal, lower};
use crate::text_laws::{is_around, parts_stand_between_others};
use crate::weburl::UrlModel;
use vstd::prelude::*;

verus! {

/// The name of a member is compared without hyphens, underscores and full stops,
/// and in small letters.
pub proof fn names_are_compared_in_small_letters(key: Seq<char>, next: char)
    requires
        next as u32 <= 0x7f,
    ensures
        key_normalized(Seq::empty()).len() == 0,
        next == '-' || next == '_' || next == '.' ==> key_normalized(key.push(next))
            == key_normalized(key),
        'A' <= next <= 'Z' ==> key_normalized(key.push(next)) == key_normalized(key).push(
            ((next as u32 + 32) as u32) as char,
        ),
        !('A' <= next <= 'Z') && next != '-' && next != '_' && next != '.' ==> key_normalized(
            key.push(next),
        ) == key_normalized(key).push(next),
{
    assert(key.push(next).drop_last() =~= key);
    if !('A' <= next <= 'Z') {
        assert(key_normalized(key) + seq![next] =~= key_normalized(key).push(next));
    } else {
        let small = ((next as u32 + 32) as u32) as char;
        assert(key_normalized(key) + seq![small] =~= key_normalized(key).push(small));
    }
}

/// Six members hold the addresses of a video: the ones it plays from, which
/// weigh most, its own ones, and the one it is downloaded from, which weighs
/// least. No other member does.
pub proof fn videos_have_six_kinds_of_addresses(name: Seq<char>)
    ensures
        source_of("playaddrh264"@) == Some(SourceModel { kind: "play"@, points: 96 }),
        source_of("playaddr"@) == Some(SourceModel { kind: "play"@, points: 92 }),
        source_of("playaddrbytevc1"@) == Some(SourceModel { kind: "play"@, points: 88 }),
        source_of("videourl"@) == Some(SourceModel { kind: "video-url"@, points: 72 }),
        source_of("contenturl"@) == Some(SourceModel { kind: "video-url"@, points: 70 }),
        source_of("downloadaddr"@) == Some(SourceModel { kind: "download"@, points: 52 }),
        name != "playaddrh264"@ && name != "playaddr"@ && name != "playaddrbytevc1"@ && name
            != "videourl"@ && name != "contenturl"@ && name != "downloadaddr"@ ==> source_of(
            name,
        ) is None,
{
    reveal_strlit("playaddrh264");
    reveal_strlit("playaddr");
    reveal_strlit("playaddrbytevc1");
    reveal_strlit("videourl");
    reveal_strlit("contenturl");
    reveal_strlit("downloadaddr");
    assert("playaddrh264"@.len() == 12 && "playaddr"@.len() == 8 && "playaddrbytevc1"@.len() == 15);
    assert("videourl"@.len() == 8 && "contenturl"@.len() == 10 && "downloadaddr"@.len() == 12);
    assert("playaddr"@[0] == 'p' && "videourl"@[0] == 'v');
    assert("playaddrh264"@[0] == 'p' && "downloadaddr"@[0] == 'd');
}

/// The reading of a number, or of a text that writes one; nothing of any other
/// value.
pub open spec fn reading_in(value: Option<Json>) -> Option<Reading> {
    match value {
        Some(Json::Number(number)) => number.reading,
        Some(Json::Text(text)) => text.reading,
        _ => None,
    }
}

pub open spec fn words_in(value: Option<Json>) -> Option<Seq<char>> {
    match value {
        Some(Json::Text(text)) => Some(text.text@),
        _ => None,
    }
}

/// What an object says of its video: the bit rate under the first of three names
/// that it has, the width and the height, and the first texts among those that
/// name the codec and the format.
pub proof fn objects_describe_their_video(members: Seq<JsonMember>)
    ensures
        ({
            let found = metadata_of(members);
            let first = member(members, "bit_rate"@);
            let second = member(members, "bitrate"@);
            let third = member(members, "bitRate"@);
            &&& first is Some ==> found.bitrate == reading_in(first)
            &&& first is None && second is Some ==> found.bitrate == reading_in(second)
            &&& first is None && second is None ==> found.bitrate == reading_in(third)
            &&& found.width == reading_in(member(members, "width"@))
            &&& found.height == reading_in(member(members, "height"@))
        }),
        ({
            let found = metadata_of(members).codec;
            let first = words_in(member(members, "codec_type"@));
            let second = words_in(member(members, "codecType"@));
            let third = words_in(member(members, "codec"@));
            &&& first is Some ==> found == first
            &&& first is None && second is Some ==> found == second
            &&& first is None && second is None ==> found == third
        }),
        ({
            let found = metadata_of(members).format;
            let first = words_in(member(members, "format"@));
            let second = words_in(member(members, "gear_name"@));
            let third = words_in(member(members, "gearName"@));
            &&& first is Some ==> found == first
            &&& first is None && second is Some ==> found == second
            &&& first is None && second is None ==> found == third
        }),
{
}

pub open spec fn weight(holds: bool, points: int) -> int {
    if holds {
        points
    } else {
        0
    }
}

/// A candidate weighs by where it was found, and more for a media file, for a
/// path or a query of a video, for a known size and for a greater bit rate; less
/// for a mark, and where it is not known what it leads to.
pub proof fn candidates_weigh_by_what_is_known(
    points: int,
    url: UrlModel,
    metadata: MetadataModel,
)
    ensures
        ({
            let path = lower(url.path);
            let ends = ".mp4"@.is_suffix_of(path) || ".m4v"@.is_suffix_of(path)
                || ".mov"@.is_suffix_of(path);
            let marked = is_around(path, "/playwm/"@) || url.pairs().contains(
                ("watermark"@, "1"@),
            );
            let sized = metadata.width matches Some(width) && metadata.height matches Some(height)
                && width.place != 0 && width.place != -1 && height.place != 0 && height.place
                != -1;
            let bonus = match metadata.bitrate {
                Some(bitrate) => weight(bitrate.place > 0, bitrate.bonus as int),
                None => 0,
            };
            score_of(points, url, classified(url), metadata) == 100 * points + weight(
                classified(url) == Directness::CdnMedia,
                2000,
            ) + weight(ends, 1600) + weight(
                url.pairs().contains(("mime_type"@, "video_mp4"@)),
                1400,
            ) + weight(is_around(path, "/video/"@), 1000) - weight(marked, 3500) - weight(
                classified(url) == Directness::Unknown,
                2000,
            ) + weight(sized, 600) + bonus
        }),
{
    parts_stand_between_others(lower(url.path), "/playwm/"@);
    parts_stand_between_others(lower(url.path), "/video/"@);
}

/// What is noted of a candidate: its address, where it was found and how, what
/// it leads to, what its document says of it, and its weight.
pub proof fn candidates_carry_what_is_known(
    source: SourceModel,
    url: UrlModel,
    path: Seq<char>,
    metadata: MetadataModel,
    evidence: Seq<char>,
    origin: Seq<char>,
    order: nat,
)
    requires
        0 <= source.points <= 1000,
    ensures
        ({
            let found = found_candidate(source, url, path, metadata, evidence, origin, order);
            &&& found.url == url.text()
            &&& found.source_path == path
            &&& found.source_kind == source.kind
            &&& found.directness == classified(url)
            &&& found.playback_variant == playback_variant(url)
            &&& found.width == metadata.width && found.height == metadata.height
            &&& found.bitrate == metadata.bitrate
            &&& found.codec == metadata.codec && found.format == metadata.format
            &&& found.score == score_of(source.points, url, classified(url), metadata)
            &&& found.evidence == seq![evidence, directness_text(classified(url))]
            &&& found.sources == seq![origin]
            &&& found.order == order
        }),
        directness_text(Directness::PlayEndpoint) == "play-endpoint"@,
        directness_text(Directness::CdnMedia) == "cdn-media"@,
        directness_text(Directness::Unknown) == "unknown"@,
{
}

/// A `meta` element holds a candidate where it is of `og:video`,
/// `og:video:url` or `og:video:secure_url`, by its property or else by its name,
/// and its content is the address of one.
pub proof fn meta_elements_hold_candidates(
    attributes: Seq<(Seq<char>, Seq<char>)>,
    found: Seq<CandidateModel>,
)
    ensures
        ({
            let after = with_meta(attributes, found);
            let property = match attribute(attributes, "property"@) {
                Some(property) => lower(property),
                None => match attribute(attributes, "name"@) {
                    Some(name) => lower(name),
                    None => Seq::empty(),
                },
            };
            let of_video = property == "og:video"@ || property == "og:video:url"@ || property
                == "og:video:secure_url"@;
            let content = attribute(attributes, "content"@);
            &&& !of_video || content is None ==> after == found
            &&& of_video && content is Some ==> match candidate_url(content->0) {
                None => after == found,
                Some(url) => after == found.push(
                    found_candidate(
                        SourceModel { kind: "video-url"@, points: 68 },
                        url,
                        "meta["@ + property + "]"@,
                        no_metadata(),
                        property,
                        "html-meta"@,
                        found.len(),
                    ),
                ),
            }
        }),
{
}

/// A media element holds a candidate where its `src` is the address of one.
pub proof fn media_elements_hold_candidates(
    attributes: Seq<(Seq<char>, Seq<char>)>,
    found: Seq<CandidateModel>,
)
    ensures
        ({
            let after = with_media(attributes, found);
            let source = attribute(attributes, "src"@);
            &&& source is None ==> after == found
            &&& source matches Some(source) ==> match candidate_url(source) {
                None => after == found,
                Some(url) => after == found.push(
                    found_candidate(
                        SourceModel { kind: "video-url"@, points: 66 },
                        url,
                        "html-media-src"@,
                        no_metadata(),
                        "media src"@,
                        "html-media"@,
                        found.len(),
                    ),
                ),
            }
        }),
{
}

/// The elements of a page are read one after the other, each by its attributes.
pub proof fn elements_are_read_in_order(
    elements: Seq<Seq<Option<Seq<char>>>>,
    tag: Seq<char>,
    found: Seq<CandidateModel>,
)
    ensures
        ({
            let more = elements.push(seq![None::<Seq<char>>, Some(tag)]);
            let count = elements.len() + 1;
            &&& with_elements(more, count, true, found) == with_meta(
                attributes_in(tag),
                with_elements(elements, elements.len(), true, found),
            )
            &&& with_elements(more, count, false, found) == with_media(
                attributes_in(tag),
                with_elements(elements, elements.len(), false, found),
            )
        }),
{
    let last = seq![None::<Seq<char>>, Some(tag)];
    lemma_elements_prefix(elements, last, elements.len(), true, found);
    lemma_elements_prefix(elements, last, elements.len(), false, found);
}

proof fn lemma_elements_prefix(
    elements: Seq<Seq<Option<Seq<char>>>>,
    last: Seq<Option<Seq<char>>>,
    count: nat,
    meta: bool,
    found: Seq<CandidateModel>,
)
    requires
        count <= elements.len(),
    ensures
        with_elements(elements.push(last), count, meta, found) == with_elements(
            elements,
            count,
            meta,
            found,
        ),
    decreases count,
{
    if count > 0 {
        lemma_elements_prefix(elements, last, (count - 1) as nat, meta, found);
    }
}

/// The inner value stands in the other at most so many levels down, and the path
/// leads there: through items by their number and through members by their name.
pub open spec fn leads_to(
    value: Json,
    path: Seq<char>,
    inner: Json,
    inner_path: Seq<char>,
    levels: nat,
) -> bool
    decreases levels,
{
    levels > 0 && ((value == inner && path == inner_path) || match value {
        Json::Array(items) => exists|i: int|
            0 <= i < items@.len() && leads_to(
                #[trigger] items@[i],
                path + "["@ + decimal(i as nat) + "]"@,
                inner,
                inner_path,
                (levels - 1) as nat,
            ),
        Json::Object(members) => exists|i: int|
            0 <= i < members@.len() && leads_to(
                (#[trigger] members@[i]).value,
                path + "."@ + members@[i].key@,
                inner,
                inner_path,
                (levels - 1) as nat,
            ),
        _ => false,
    })
}

/// The finding is one of those that were found, whatever its number.
pub open spec fn has_finding(found: Seq<CandidateModel>, finding: CandidateModel) -> bool {
    exists|k: int|
        0 <= k < found.len() && #[trigger] found[k] == (CandidateModel { order: k as nat, ..finding })
}

/// The finding is at this address.
pub open spec fn is_finding_at(
    address: Seq<char>,
    source: SourceModel,
    path: Seq<char>,
    metadata: MetadataModel,
    key: Seq<char>,
    origin: Seq<char>,
    finding: CandidateModel,
) -> bool {
    candidate_url(address) matches Some(url) && finding == found_candidate(
        source,
        url,
        path,
        metadata,
        key,
        origin,
        finding.order,
    )
}

/// The member is of a kind that holds the addresses of a video, and the finding
/// is at one of them.
pub open spec fn holds_finding(
    item: JsonMember,
    path: Seq<char>,
    metadata: MetadataModel,
    origin: Seq<char>,
    finding: CandidateModel,
) -> bool {
    source_of(key_normalized(item.key@)) matches Some(source) && exists|k: int|
        0 <= k < address_texts(item.value).len() && #[trigger] is_finding_at(
            address_texts(item.value)[k],
            source,
            path,
            metadata,
            item.key@,
            origin,
            finding,
        )
}

/// The value is an object with a member that holds the finding. The finding
/// carries the path to the member and what the object says of its video.
pub open spec fn shows_finding(
    value: Json,
    path: Seq<char>,
    origin: Seq<char>,
    finding: CandidateModel,
) -> bool {
    value matches Json::Object(members) && exists|i: int|
        0 <= i < members@.len() && holds_finding(
            #[trigger] members@[i],
            path + "."@ + members@[i].key@,
            metadata_of(members@),
            origin,
            finding,
        )
}

proof fn lemma_prefix_has(
    before: Seq<CandidateModel>,
    after: Seq<CandidateModel>,
    finding: CandidateModel,
)
    requires
        before.is_prefix_of(after),
        has_finding(before, finding),
    ensures
        has_finding(after, finding),
{
    let k = choose|k: int|
        0 <= k < before.len() && #[trigger] before[k] == (CandidateModel {
            order: k as nat,
            ..finding
        });
    assert(after[k] == before[k]);
}

proof fn lemma_addresses(
    addresses: Seq<Seq<char>>,
    count: nat,
    source: SourceModel,
    path: Seq<char>,
    metadata: MetadataModel,
    key: Seq<char>,
    origin: Seq<char>,
    found: Seq<CandidateModel>,
    finding: CandidateModel,
)
    requires
        count <= addresses.len(),
    ensures
        ({
            let after = with_addresses(addresses, count, source, path, metadata, key, origin, found);
            &&& found.is_prefix_of(after)
            &&& has_finding(after, finding) <==> has_finding(found, finding) || exists|k: int|
                0 <= k < count && #[trigger] is_finding_at(
                    addresses[k],
                    source,
                    path,
                    metadata,
                    key,
                    origin,
                    finding,
                )
        }),
    decreases count,
{
    if count > 0 {
        let fewer = (count - 1) as nat;
        let before = with_addresses(addresses, fewer, source, path, metadata, key, origin, found);
        let after = with_addresses(addresses, count, source, path, metadata, key, origin, found);
        lemma_addresses(addresses, fewer, source, path, metadata, key, origin, found, finding);
        if has_finding(before, finding) {
            lemma_prefix_has(before, after, finding);
        }
        let last = addresses[count - 1];
        if is_finding_at(last, source, path, metadata, key, origin, finding) {
            let k = before.len() as int;
            assert(after[k] == (CandidateModel { order: k as nat, ..finding }));
        }
        if has_finding(after, finding) && !has_finding(before, finding) {
            let k = choose|k: int|
                0 <= k < after.len() && #[trigger] after[k] == (CandidateModel {
                    order: k as nat,
                    ..finding
                });
            if k < before.len() {
                assert(before[k] == after[k]);
            }
            assert(is_finding_at(last, source, path, metadata, key, origin, finding));
        }
    }
}

proof fn lemma_member(
    item: JsonMember,
    path: Seq<char>,
    metadata: MetadataModel,
    origin: Seq<char>,
    found: Seq<CandidateModel>,
    finding: CandidateModel,
)
    ensures
        found.is_prefix_of(with_member(item, path, metadata, origin, found)),
        has_finding(with_member(item, path, metadata, origin, found), finding) <==> has_finding(
            found,
            finding,
        ) || holds_finding(item, path, metadata, origin, finding),
{
    if let Some(source) = source_of(key_normalized(item.key@)) {
        let addresses = address_texts(item.value);
        lemma_addresses(
            addresses,
            addresses.len(),
            source,
            path,
            metadata,
            item.key@,
            origin,
            found,
            finding,
        );
    }
}

/// A member of a kind that holds the addresses of a video adds a finding for
/// each of its addresses that is one of a candidate, and nothing else; any other
/// member adds none.
pub proof fn members_add_the_candidates_they_hold(
    item: JsonMember,
    path: Seq<char>,
    metadata: MetadataModel,
    origin: Seq<char>,
    found: Seq<CandidateModel>,
)
    ensures
        found.is_prefix_of(with_member(item, path, metadata, origin, found)),
        forall|finding: CandidateModel| #[trigger]
            has_finding(with_member(item, path, metadata, origin, found), finding) <==> has_finding(
                found,
                finding,
            ) || holds_finding(item, path, metadata, origin, finding),
{
    assert forall|finding: CandidateModel| #[trigger]
        has_finding(with_member(item, path, metadata, origin, found), finding) <==> has_finding(
            found,
            finding,
        ) || holds_finding(item, path, metadata, origin, finding) by {
        lemma_member(item, path, metadata, origin, found, finding);
    }
    if let Some(source) = source_of(key_normalized(item.key@)) {
        let addresses = address_texts(item.value);
        let count = addresses.len();
        lemma_addresses_prefix(
            addresses,
            count,
            source,
            path,
            metadata,
            item.key@,
            origin,
            found,
        );
    }
}

proof fn lemma_addresses_prefix(
    addresses: Seq<Seq<char>>,
    count: nat,
    source: SourceModel,
    path: Seq<char>,
    metadata: MetadataModel,
    key: Seq<char>,
    origin: Seq<char>,
    found: Seq<CandidateModel>,
)
    ensures
        found.is_prefix_of(
            with_addresses(addresses, count, source, path, metadata, key, origin, found),
        ),
    decreases count,
{
    if count > 0 {
        lemma_addresses_prefix(
            addresses,
            (count - 1) as nat,
            source,
            path,
            metadata,
            key,
            origin,
            found,
        );
    }
}

/// What is known of one finding before and after a value was visited.
spec fn is_told(
    node: Json,
    path: Seq<char>,
    origin: Seq<char>,
    levels: nat,
    before: Collected,
    after: Collected,
    finding: CandidateModel,
) -> bool {
    &&& before.nodes <= after.nodes
    &&& before.found.is_prefix_of(after.found)
    &&& has_finding(after.found, finding) ==> has_finding(before.found, finding) || exists|
        inner: Json,
        at: Seq<char>,
    | #[trigger]
        leads_to(node, path, inner, at, levels) && shows_finding(inner, at, origin, finding)
    &&& after.nodes <= 50000 ==> forall|inner: Json, at: Seq<char>| #[trigger]
        leads_to(node, path, inner, at, levels) && shows_finding(inner, at, origin, finding)
            ==> has_finding(after.found, finding)
}

proof fn lemma_visited(
    node: Json,
    path: Seq<char>,
    origin: Seq<char>,
    levels: nat,
    state: Collected,
    finding: CandidateModel,
)
    ensures
        is_told(
            node,
            path,
            origin,
            levels,
            state,
            visited(node, path, origin, levels, state),
            finding,
        ),
    decreases levels, 0nat,
{
    if levels > 0 && state.nodes <= 50000 {
        let below = (levels - 1) as nat;
        let after = visited(node, path, origin, levels, state);
        let counted = Collected { nodes: state.nodes + 1, ..state };
        match node {
            Json::Object(members) => {
                let metadata = metadata_of(members@);
                lemma_visited_members(
                    members@,
                    members@.len(),
                    metadata,
                    path,
                    origin,
                    below,
                    counted,
                    finding,
                );
                if has_finding(after.found, finding) && !has_finding(state.found, finding) {
                    if exists|i: int|
                        0 <= i < members@.len() && holds_finding(
                            #[trigger] members@[i],
                            path + "."@ + members@[i].key@,
                            metadata,
                            origin,
                            finding,
                        ) {
                        assert(shows_finding(node, path, origin, finding));
                        assert(leads_to(node, path, node, path, levels));
                    } else {
                        let (i, inner, at) = choose|i: int, inner: Json, at: Seq<char>|
                            0 <= i < members@.len() && #[trigger] leads_to(
                                members@[i].value,
                                path + "."@ + members@[i].key@,
                                inner,
                                at,
                                below,
                            ) && shows_finding(inner, at, origin, finding);
                        assert(leads_to(node, path, inner, at, levels));
                    }
                }
                if after.nodes <= 50000 {
                    assert forall|inner: Json, at: Seq<char>| #[trigger]
                        leads_to(node, path, inner, at, levels) && shows_finding(
                            inner,
                            at,
                            origin,
                            finding,
                        ) implies has_finding(after.found, finding) by {
                        if inner == node && at == path {
                            let i = choose|i: int|
                                0 <= i < members@.len() && holds_finding(
                                    #[trigger] members@[i],
                                    path + "."@ + members@[i].key@,
                                    metadata,
                                    origin,
                                    finding,
                                );
                            assert(holds_finding(
                                members@[i],
                                path + "."@ + members@[i].key@,
                                metadata,
                                origin,
                                finding,
                            ));
                        } else {
                            let i = choose|i: int|
                                0 <= i < members@.len() && leads_to(
                                    (#[trigger] members@[i]).value,
                                    path + "."@ + members@[i].key@,
                                    inner,
                                    at,
                                    below,
                                );
                            assert(leads_to(
                                members@[i].value,
                                path + "."@ + members@[i].key@,
                                inner,
                                at,
                                below,
                            ));
                        }
                    }
                }
            },
            Json::Array(items) => {
                lemma_visited_items(items@, items@.len(), path, origin, below, counted, finding);
                if has_finding(after.found, finding) && !has_finding(state.found, finding) {
                    let (i, inner, at) = choose|i: int, inner: Json, at: Seq<char>|
                        0 <= i < items@.len() && #[trigger] leads_to(
                            items@[i],
                            path + "["@ + decimal(i as nat) + "]"@,
                            inner,
                            at,
                            below,
                        ) && shows_finding(inner, at, origin, finding);
                    assert(leads_to(node, path, inner, at, levels));
                }
                if after.nodes <= 50000 {
                    assert forall|inner: Json, at: Seq<char>| #[trigger]
                        leads_to(node, path, inner, at, levels) && shows_finding(
                            inner,
                            at,
                            origin,
                            finding,
                        ) implies has_finding(after.found, finding) by {
                        let i = choose|i: int|
                            0 <= i < items@.len() && leads_to(
                                #[trigger] items@[i],
                                path + "["@ + decimal(i as nat) + "]"@,
                                inner,
                                at,
                                below,
                            );
                        assert(leads_to(
                            items@[i],
                            path + "["@ + decimal(i as nat) + "]"@,
                            inner,
                            at,
                            below,
                        ));
                    }
                }
            },
            _ => {},
        }
    }
}

proof fn lemma_visited_items(
    items: Seq<Json>,
    count: nat,
    path: Seq<char>,
    origin: Seq<char>,
    levels: nat,
    state: Collected,
    finding: CandidateModel,
)
    requires
        count <= items.len(),
    ensures
        ({
            let after = visited_items(items, count, path, origin, levels, state);
            &&& state.nodes <= after.nodes
            &&& state.found.is_prefix_of(after.found)
            &&& has_finding(after.found, finding) ==> has_finding(state.found, finding) || exists|
                i: int,
                inner: Json,
                at: Seq<char>,
            |
                0 <= i < count && #[trigger] leads_to(
                    items[i],
                    path + "["@ + decimal(i as nat) + "]"@,
                    inner,
                    at,
                    levels,
                ) && shows_finding(inner, at, origin, finding)
            &&& after.nodes <= 50000 ==> forall|i: int, inner: Json, at: Seq<char>|
                0 <= i < count && #[trigger] leads_to(
                    items[i],
                    path + "["@ + decimal(i as nat) + "]"@,
                    inner,
                    at,
                    levels,
                ) && shows_finding(inner, at, origin, finding) ==> has_finding(after.found, finding)
        }),
    decreases levels, count + 1,
{
    if count > 0 {
        let fewer = (count - 1) as nat;
        lemma_visited_items(items, fewer, path, origin, levels, state, finding);
        let before = visited_items(items, fewer, path, origin, levels, state);
        let after = visited_items(items, count, path, origin, levels, state);
        let child = path + "["@ + decimal(fewer) + "]"@;
        lemma_visited(items[count - 1], child, origin, levels, before, finding);
        if has_finding(before.found, finding) {
            lemma_prefix_has(before.found, after.found, finding);
        }
        if has_finding(after.found, finding) && !has_finding(before.found, finding) {
            let (inner, at) = choose|inner: Json, at: Seq<char>| #[trigger]
                leads_to(items[count - 1], child, inner, at, levels) && shows_finding(
                    inner,
                    at,
                    origin,
                    finding,
                );
            let i = count - 1;
            assert(leads_to(
                items[i],
                path + "["@ + decimal(i as nat) + "]"@,
                inner,
                at,
                levels,
            ));
        }
    }
}

proof fn lemma_visited_members(
    members: Seq<JsonMember>,
    count: nat,
    metadata: MetadataModel,
    path: Seq<char>,
    origin: Seq<char>,
    levels: nat,
    state: Collected,
    finding: CandidateModel,
)
    requires
        count <= members.len(),
    ensures
        ({
            let after = visited_members(members, count, metadata, path, origin, levels, state);
            &&& state.nodes <= after.nodes
            &&& state.found.is_prefix_of(after.found)
            &&& has_finding(after.found, finding) ==> has_finding(state.found, finding) || (exists|
                i: int,
            |
                0 <= i < count && holds_finding(
                    #[trigger] members[i],
                    path + "."@ + members[i].key@,
                    metadata,
                    origin,
                    finding,
                )) || exists|i: int, inner: Json, at: Seq<char>|
                0 <= i < count && #[trigger] leads_to(
                    members[i].value,
                    path + "."@ + members[i].key@,
                    inner,
                    at,
                    levels,
                ) && shows_finding(inner, at, origin, finding)
            &&& forall|i: int|
                0 <= i < count && holds_finding(
                    #[trigger] members[i],
                    path + "."@ + members[i].key@,
                    metadata,
                    origin,
                    finding,
                ) ==> has_finding(after.found, finding)
            &&& after.nodes <= 50000 ==> forall|i: int, inner: Json, at: Seq<char>|
                0 <= i < count && #[trigger] leads_to(
                    members[i].value,
                    path + "."@ + members[i].key@,
                    inner,
                    at,
                    levels,
                ) && shows_finding(inner, at, origin, finding) ==> has_finding(after.found, finding)
        }),
    decreases levels, count + 1,
{
    if count > 0 {
        let fewer = (count - 1) as nat;
        lemma_visited_members(members, fewer, metadata, path, origin, levels, state, finding);
        let before = visited_members(members, fewer, metadata, path, origin, levels, state);
        let after = visited_members(members, count, metadata, path, origin, levels, state);
        let item = members[count - 1];
        let child = path + "."@ + item.key@;
        let noted = Collected {
            found: with_member(item, child, metadata, origin, before.found),
            nodes: before.nodes,
        };
        lemma_member(item, child, metadata, origin, before.found, finding);
        lemma_visited(item.value, child, origin, levels, noted, finding);
        if has_finding(before.found, finding) {
            lemma_prefix_has(before.found, noted.found, finding);
        }
        if has_finding(noted.found, finding) {
            lemma_prefix_has(noted.found, after.found, finding);
        }
        if has_finding(after.found, finding) && !has_finding(noted.found, finding) {
            let (inner, at) = choose|inner: Json, at: Seq<char>| #[trigger]
                leads_to(item.value, child, inner, at, levels) && shows_finding(
                    inner,
                    at,
                    origin,
                    finding,
                );
            let i = count - 1;
            assert(leads_to(
                members[i].value,
                path + "."@ + members[i].key@,
                inner,
                at,
                levels,
            ));
        }
    }
}

/// The findings of a value are those that its objects hold, as deep as sixty
/// five levels, each with the path to it: no others are found, those that were
/// found stay, and unless more than fifty thousand values were visited, none are
/// missed.
pub proof fn values_show_the_candidates_of_their_objects(
    value: Json,
    path: Seq<char>,
    origin: Seq<char>,
    state: Collected,
    finding: CandidateModel,
)
    ensures
        ({
            let after = visited(value, path, origin, 65, state);
            &&& state.found.is_prefix_of(after.found)
            &&& has_finding(after.found, finding) ==> has_finding(state.found, finding) || exists|
                inner: Json,
                at: Seq<char>,
            | #[trigger]
                leads_to(value, path, inner, at, 65) && shows_finding(inner, at, origin, finding)
            &&& after.nodes <= 50000 ==> forall|inner: Json, at: Seq<char>| #[trigger]
                leads_to(value, path, inner, at, 65) && shows_finding(inner, at, origin, finding)
                    ==> has_finding(after.found, finding)
        }),
{
    lemma_visited(value, path, origin, 65, state, finding);
}

proof fn lemma_visited_roots(
    roots: Seq<Json>,
    count: nat,
    origin: Seq<char>,
    state: Collected,
    finding: CandidateModel,
)
    requires
        count <= roots.len(),
    ensures
        ({
            let after = visited_roots(roots, count, origin, state);
            &&& state.nodes <= after.nodes
            &&& state.found.is_prefix_of(after.found)
            &&& has_finding(after.found, finding) ==> has_finding(state.found, finding) || exists|
                i: int,
                inner: Json,
                at: Seq<char>,
            |
                0 <= i < count && #[trigger] leads_to(
                    roots[i],
                    origin + "["@ + decimal(i as nat) + "]"@,
                    inner,
                    at,
                    65,
                ) && shows_finding(inner, at, origin, finding)
            &&& after.nodes <= 50000 ==> forall|i: int, inner: Json, at: Seq<char>|
                0 <= i < count && #[trigger] leads_to(
                    roots[i],
                    origin + "["@ + decimal(i as nat) + "]"@,
                    inner,
                    at,
                    65,
                ) && shows_finding(inner, at, origin, finding) ==> has_finding(after.found, finding)
        }),
    decreases count,
{
    if count > 0 {
        let fewer = (count - 1) as nat;
        lemma_visited_roots(roots, fewer, origin, state, finding);
        let before = visited_roots(roots, fewer, origin, state);
        let after = visited_roots(roots, count, origin, state);
        let child = origin + "["@ + decimal(fewer) + "]"@;
        lemma_visited(roots[count - 1], child, origin, 65, before, finding);
        if has_finding(before.found, finding) {
            lemma_prefix_has(before.found, after.found, finding);
        }
        if has_finding(after.found, finding) && !has_finding(before.found, finding) {
            let (inner, at) = choose|inner: Json, at: Seq<char>| #[trigger]
                leads_to(roots[count - 1], child, inner, at, 65) && shows_finding(
                    inner,
                    at,
                    origin,
                    finding,
                );
            let i = count - 1;
            assert(leads_to(
                roots[i],
                origin + "["@ + decimal(i as nat) + "]"@,
                inner,
                at,
                65,
            ));
        }
    }
}

/// Of a document in which a video is looked for, the findings are those of the
/// objects that name the video and hold it; where no object names any video,
/// they are those of the whole document, as where no video is looked for.
pub proof fn documents_show_the_candidates_of_their_video(
    value: Json,
    origin: Seq<char>,
    id: Seq<char>,
    state: Collected,
    finding: CandidateModel,
)
    ensures
        ({
            let after = document_visited(value, origin, Some(id), state);
            let search = video_search(value, id);
            &&& state.found.is_prefix_of(after.found)
            &&& search.roots.len() > 0 && has_finding(after.found, finding) ==> has_finding(
                state.found,
                finding,
            ) || exists|i: int, inner: Json, at: Seq<char>|
                0 <= i < search.roots.len() && #[trigger] leads_to(
                    search.roots[i],
                    origin + "["@ + decimal(i as nat) + "]"@,
                    inner,
                    at,
                    65,
                ) && shows_finding(inner, at, origin, finding)
            &&& search.roots.len() > 0 && after.nodes <= 50000 ==> forall|
                i: int,
                inner: Json,
                at: Seq<char>,
            |
                0 <= i < search.roots.len() && #[trigger] leads_to(
                    search.roots[i],
                    origin + "["@ + decimal(i as nat) + "]"@,
                    inner,
                    at,
                    65,
                ) && shows_finding(inner, at, origin, finding) ==> has_finding(after.found, finding)
            &&& search.roots.len() == 0 && search.identified ==> after == state
            &&& search.roots.len() == 0 && !search.identified ==> after == document_visited(
                value,
                origin,
                None,
                state,
            )
        }),
        ({
            let after = document_visited(value, origin, None, state);
            &&& state.found.is_prefix_of(after.found)
            &&& has_finding(after.found, finding) ==> has_finding(state.found, finding) || exists|
                inner: Json,
                at: Seq<char>,
            | #[trigger]
                leads_to(value, origin, inner, at, 65) && shows_finding(inner, at, origin, finding)
            &&& after.nodes <= 50000 ==> forall|inner: Json, at: Seq<char>| #[trigger]
                leads_to(value, origin, inner, at, 65) && shows_finding(inner, at, origin, finding)
                    ==> has_finding(after.found, finding)
        }),
{
    let search = video_search(value, id);
    lemma_visited(value, origin, origin, 65, state, finding);
    lemma_visited_roots(search.roots, search.roots.len(), origin, state, finding);
}

/// Items are visited in their order: one more item adds its findings behind
/// those of the items before it.
pub proof fn items_are_visited_in_order(
    items: Vec<Json>,
    more: Vec<Json>,
    last: Json,
    path: Seq<char>,
    origin: Seq<char>,
    levels: nat,
    state: Collected,
)
    requires
        levels > 0,
        state.nodes <= 50000,
        more@ == items@.push(last),
    ensures
        visited(Json::Array(more), path, origin, levels, state) == visited(
            last,
            path + "["@ + decimal(items@.len()) + "]"@,
            origin,
            (levels - 1) as nat,
            visited(Json::Array(items), path, origin, levels, state),
        ),
{
    let counted = Collected { nodes: state.nodes + 1, ..state };
    lemma_items_prefix(items@, last, items@.len(), path, origin, (levels - 1) as nat, counted);
}

proof fn lemma_items_prefix(
    items: Seq<Json>,
    last: Json,
    count: nat,
    path: Seq<char>,
    origin: Seq<char>,
    levels: nat,
    state: Collected,
)
    requires
        count <= items.len(),
    ensures
        visited_items(items.push(last), count, path, origin, levels, state) == visited_items(
            items,
            count,
            path,
            origin,
            levels,
            state,
        ),
    decreases count,
{
    if count > 0 {
        lemma_items_prefix(items, last, (count - 1) as nat, path, origin, levels, state);
    }
}

/// Members are visited in their order: one more member, which says nothing of
/// the video itself, adds the findings at its addresses and then those of the
/// objects in it behind those of the members before it.
pub proof fn members_are_visited_in_order(
    members: Vec<JsonMember>,
    more: Vec<JsonMember>,
    last: JsonMember,
    path: Seq<char>,
    origin: Seq<char>,
    levels: nat,
    state: Collected,
)
    requires
        levels > 0,
        state.nodes <= 50000,
        more@ == members@.push(last),
        metadata_of(more@) == metadata_of(members@),
    ensures
        ({
            let before = visited(Json::Object(members), path, origin, levels, state);
            let child = path + "."@ + last.key@;
            visited(Json::Object(more), path, origin, levels, state) == visited(
                last.value,
                child,
                origin,
                (levels - 1) as nat,
                Collected {
                    found: with_member(last, child, metadata_of(members@), origin, before.found),
                    nodes: before.nodes,
                },
            )
        }),
{
    let counted = Collected { nodes: state.nodes + 1, ..state };
    lemma_members_prefix(
        members@,
        last,
        members@.len(),
        metadata_of(members@),
        path,
        origin,
        (levels - 1) as nat,
        counted,
    );
}

proof fn lemma_members_prefix(
    members: Seq<JsonMember>,
    last: JsonMember,
    count: nat,
    metadata: MetadataModel,
    path: Seq<char>,
    origin: Seq<char>,
    levels: nat,
    state: Collected,
)
    requires
        count <= members.len(),
    ensures
        visited_members(members.push(last), count, metadata, path, origin, levels, state)
            == visited_members(members, count, metadata, path, origin, levels, state),
    decreases count,
{
    if count > 0 {
        lemma_members_prefix(
            members,
            last,
            (count - 1) as nat,
            metadata,
            path,
            origin,
            levels,
            state,
        );
    }
}

/// An object holds a video where it names it, as `aweme_id` or else as
/// `awemeId`, in a text or a number, and has a `video` that is an object.
pub proof fn objects_hold_the_video_they_name(members: Vec<JsonMember>, id: Seq<char>)
    ensures
        ({
            let first = member(members@, "aweme_id"@);
            let named = if first is Some {
                first
            } else {
                member(members@, "awemeId"@)
            };
            &&& is_root(Json::Object(members), id) <==> (named matches Some(value) && (match value {
                Json::Text(text) => text.text@ == id,
                Json::Number(number) => number.text@ == id,
                _ => false,
            }) && (member(members@, "video"@) matches Some(Json::Object(_))))
            &&& names_some_video(Json::Object(members)) <==> named is Some
        }),
{
}

/// The documents of a page are visited one after the other, then its `meta`
/// elements and then its media elements; what was found stays.
pub proof fn pages_are_visited_in_order(
    html: Seq<char>,
    payloads: Seq<(Seq<char>, Json)>,
    last: (Seq<char>, Json),
    id: Option<Seq<char>>,
)
    ensures
        payloads_visited(payloads, 0, id).found.len() == 0,
        payloads_visited(payloads, 0, id).nodes == 0,
        payloads_visited(payloads.push(last), payloads.len() + 1, id) == document_visited(
            last.1,
            last.0,
            id,
            payloads_visited(payloads, payloads.len(), id),
        ),
        ({
            let before = payloads_visited(payloads, payloads.len(), id);
            let meta = regex_matches(r"(?is)<meta\b([^>]*)>"@, html);
            let media = regex_matches(r"(?is)<(?:video|source)\b([^>]*)>"@, html);
            let after = page_collected(html, payloads, id);
            &&& after.nodes == before.nodes
            &&& after.found == with_elements(
                media,
                media.len(),
                false,
                with_elements(meta, meta.len(), true, before.found),
            )
        }),
{
    lemma_payloads_prefix(payloads, last, payloads.len(), id);
}

proof fn lemma_payloads_prefix(
    payloads: Seq<(Seq<char>, Json)>,
    last: (Seq<char>, Json),
    count: nat,
    id: Option<Seq<char>>,
)
    requires
        count <= payloads.len(),
    ensures
        payloads_visited(payloads.push(last), count, id) == payloads_visited(payloads, count, id),
    decreases count,
{
    if count > 0 {
        lemma_payloads_prefix(payloads, last, (count - 1) as nat, id);
    }
}

/// A page in which no document was found is warned of, and a page of more than
/// two MiB is not read.
pub proof fn pages_without_documents_are_warned_of(documents: nat, html: Seq<char>)
    ensures
        documents == 0 ==> page_warnings(documents) == seq![
            "No supported public hydration payload was found in the document."@,
        ],
        documents > 0 ==> page_warnings(documents).len() == 0,
        crate::collect::is_too_large(html) <==> vstd::utf8::encode_utf8(html).len() > 2097152,
{
}

/// The title and the images of a page are those of its documents, one after the
/// other.
pub proof fn posts_are_read_from_each_document(
    payloads: Seq<(Seq<char>, Json)>,
    last: (Seq<char>, Json),
)
    ensures
        page_post(payloads, 0) == (PostModel { title: None, images: Seq::empty() }),
        page_post(payloads.push(last), payloads.len() + 1) == crate::images::post_of(
            last.1,
            page_post(payloads, payloads.len()),
        ),
{
    lemma_posts_prefix(payloads, last, payloads.len());
}

proof fn lemma_posts_prefix(
    payloads: Seq<(Seq<char>, Json)>,
    last: (Seq<char>, Json),
    count: nat,
)
    requires
        count <= payloads.len(),
    ensures
        page_post(payloads.push(last), count) == page_post(payloads, count),
    decreases count,
{
    if count > 0 {
        lemma_posts_prefix(payloads, last, (count - 1) as nat);
    }
}

/// Of two readings the greater is kept, and one that is known over none.
pub proof fn greater_readings_are_kept(left: Option<Reading>, right: Option<Reading>)
    ensures
        greater(left, None) == left,
        greater(None, right) == right,
        left is Some && right is Some && left->0.place >= right->0.place ==> greater(left, right)
            == left,
        left is Some && right is Some && left->0.place < right->0.place ==> greater(left, right)
            == right,
{
}

/// Where an address is found again, the greater score, bit rate and size are
/// kept, a kind of playback is taken if none is known, and the notes and sources
/// are joined; all else is as it was found first.
pub proof fn findings_of_one_address_are_joined(known: CandidateModel, other: CandidateModel)
    ensures
        ({
            let both = combined(known, other);
            &&& both.url == known.url
            &&& both.source_path == known.source_path && both.source_kind == known.source_kind
            &&& both.directness == known.directness
            &&& both.codec == known.codec && both.format == known.format
            &&& both.order == known.order && both.area == known.area
            &&& known.score >= other.score ==> both.score == known.score
            &&& known.score < other.score ==> both.score == other.score
            &&& both.bitrate == greater(known.bitrate, other.bitrate)
            &&& both.width == greater(known.width, other.width)
            &&& both.height == greater(known.height, other.height)
            &&& known.playback_variant is Some ==> both.playback_variant == known.playback_variant
            &&& known.playback_variant is None ==> both.playback_variant == other.playback_variant
            &&& known.evidence.is_prefix_of(both.evidence)
            &&& known.sources.is_prefix_of(both.sources)
            &&& forall|i: int|
                0 <= i < other.evidence.len() ==> both.evidence.contains(
                    #[trigger] other.evidence[i],
                )
            &&& forall|i: int|
                0 <= i < other.sources.len() ==> both.sources.contains(#[trigger] other.sources[i])
            &&& forall|note: Seq<char>| #[trigger]
                both.evidence.contains(note) ==> known.evidence.contains(note)
                    || other.evidence.contains(note)
            &&& forall|source: Seq<char>| #[trigger]
                both.sources.contains(source) ==> known.sources.contains(source)
                    || other.sources.contains(source)
        }),
{
    lemma_extended(known.evidence, other.evidence, other.evidence.len());
    lemma_extended(known.sources, other.sources, other.sources.len());
}

proof fn lemma_extended(target: Seq<Seq<char>>, values: Seq<Seq<char>>, count: nat)
    requires
        count <= values.len(),
    ensures
        target.is_prefix_of(extended(target, values, count)),
        forall|i: int|
            0 <= i < count ==> extended(target, values, count).contains(#[trigger] values[i]),
        forall|text: Seq<char>| #[trigger]
            extended(target, values, count).contains(text) ==> target.contains(text)
                || values.contains(text),
    decreases count,
{
    if count > 0 {
        let before = extended(target, values, (count - 1) as nat);
        let after = extended(target, values, count);
        lemma_extended(target, values, (count - 1) as nat);
        let last = values[count - 1];
        assert forall|i: int| 0 <= i < count implies after.contains(#[trigger] values[i]) by {
            if i < count - 1 {
                let k = choose|k: int| 0 <= k < before.len() && before[k] == values[i];
                assert(after[k] == values[i]);
            } else if !before.contains(last) {
                assert(after[before.len() as int] == last);
            }
        }
        assert forall|text: Seq<char>| #[trigger] after.contains(text) implies target.contains(text)
            || values.contains(text) by {
            let k = choose|k: int| 0 <= k < after.len() && after[k] == text;
            if k < before.len() {
                assert(before.contains(before[k]));
            } else {
                assert(values.contains(last));
            }
        }
    }
}

/// A candidate whose address is new comes last; one whose address is known is
/// joined to it where it stands, and all others stay.
pub proof fn candidates_are_joined_by_address(
    before: Seq<CandidateModel>,
    known: CandidateModel,
    after: Seq<CandidateModel>,
    other: CandidateModel,
)
    requires
        !has_url(before, other.url),
    ensures
        merged(before, other) == before.push(other),
        known.url == other.url ==> merged(before.push(known) + after, other) == before.push(
            combined(known, other),
        ) + after,
{
    lemma_url_at(before, other.url);
    if known.url == other.url {
        let whole = before.push(known) + after;
        lemma_url_at_known(before, known, after);
        assert(whole[before.len() as int] == known);
        assert(whole.update(before.len() as int, combined(known, other)) =~= before.push(
            combined(known, other),
        ) + after);
    }
}

proof fn lemma_url_at(candidates: Seq<CandidateModel>, url: Seq<char>)
    requires
        !has_url(candidates, url),
    ensures
        url_at(candidates, url) == candidates.len(),
    decreases candidates.len(),
{
    if candidates.len() > 0 {
        let rest = candidates.skip(1);
        assert(candidates[0].url != url);
        if has_url(rest, url) {
            let i = choose|i: int| 0 <= i < rest.len() && #[trigger] rest[i].url == url;
            assert(candidates[i + 1].url == url);
        }
        lemma_url_at(rest, url);
    }
}

proof fn lemma_url_at_known(
    before: Seq<CandidateModel>,
    known: CandidateModel,
    after: Seq<CandidateModel>,
)
    requires
        !has_url(before, known.url),
    ensures
        url_at(before.push(known) + after, known.url) == before.len(),
    decreases before.len(),
{
    let whole = before.push(known) + after;
    if before.len() > 0 {
        let fewer = before.skip(1);
        assert(before[0].url != known.url);
        if has_url(fewer, known.url) {
            let i = choose|i: int| 0 <= i < fewer.len() && #[trigger] fewer[i].url == known.url;
            assert(before[i + 1].url == known.url);
        }
        lemma_url_at_known(fewer, known, after);
        assert(whole[0] == before[0]);
        assert(whole.skip(1) =~= fewer.push(known) + after);
    } else {
        assert(whole[0] == known);
    }
}

/// Candidates are joined one finding after the other.
pub proof fn findings_are_joined_in_order(found: Seq<CandidateModel>, last: CandidateModel)
    ensures
        merged_all(found, 0).len() == 0,
        merged_all(found.push(last), found.len() + 1) == merged(
            merged_all(found, found.len()),
            last,
        ),
{
    lemma_merged_prefix(found, last, found.len());
}

proof fn lemma_merged_prefix(found: Seq<CandidateModel>, last: CandidateModel, count: nat)
    requires
        count <= found.len(),
    ensures
        merged_all(found.push(last), count) == merged_all(found, count),
    decreases count,
{
    if count > 0 {
        lemma_merged_prefix(found, last, (count - 1) as nat);
    }
}

/// The candidate with the greater score ranks first; with one score, the one
/// with the greater bit rate, where an unknown one counts as none; then the one
/// with the greater area; then the one that was found first.
pub proof fn candidates_rank_by_score(first: CandidateModel, second: CandidateModel)
    ensures
        first.score > second.score ==> ranks_before(first, second) && !ranks_before(second, first),
        ({
            let rate = match first.bitrate {
                Some(reading) => reading.place as int,
                None => 0,
            };
            let other = match second.bitrate {
                Some(reading) => reading.place as int,
                None => 0,
            };
            first.score == second.score ==> {
                &&& rate > other ==> ranks_before(first, second) && !ranks_before(second, first)
                &&& rate == other && first.area > second.area ==> ranks_before(first, second)
                    && !ranks_before(second, first)
                &&& rate == other && first.area == second.area && first.order < second.order
                    ==> ranks_before(first, second) && !ranks_before(second, first)
            }
        }),
{
}

/// What is reported of a candidate is what is known of it, but for its score and
/// the notes.
pub proof fn candidates_are_reported_as_known(candidate: CandidateModel)
    ensures
        ({
            let told = reported(candidate);
            &&& told.url == candidate.url
            &&& told.source_path == Some(candidate.source_path)
            &&& told.source_kind == Some(candidate.source_kind)
            &&& told.directness == Some(directness_text(candidate.directness))
            &&& told.playback_variant == candidate.playback_variant
            &&& told.width == candidate.width && told.height == candidate.height
            &&& told.bitrate == candidate.bitrate
            &&& told.codec == candidate.codec && told.format == candidate.format
        }),
{
}

} // verus!
