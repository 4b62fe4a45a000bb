//! What the collection of candidates and images keeps, whatever a page holds.
use crate::address::{candidate_url, classified, image_url};
use crate::candidates::{key_normalized, metadata_of, source_of, MetadataModel, SourceModel};
use crate::collect::{
    document_visited, item_path, member_path, nothing_collected, page_collected, payloads_visited,
    value_collected, visited, visited_items, visited_members, visited_roots, with_addresses,
    with_elements, with_member, Collected,
};
use crate::images::{
    has_image, post_noted, post_of, post_visited, post_visited_items, post_visited_members,
    with_image, with_images, with_images_of, with_list, ImageModel, PostModel, MAX_IMAGES,
};
use crate::json::{address_texts, Json, JsonMember, Reading};
use crate::markup::attributes_in;
use crate::patterns::{group_text, regex_matches};
use crate::ranking::{
    combined, distinct_urls, extended, is_ranked, lemma_merge_keeps_distinct, merged_all,
    ranks_before, url_at, CandidateModel,
};
use crate::roots::{video_search, MAX_JSON_LEVELS, MAX_JSON_NODES};
use vstd::prelude::*;

verus! {

/// The candidate was found at an address that is one of a media candidate.
pub open spec fn is_of_candidate(candidate: CandidateModel, address: Seq<char>) -> bool {
    candidate_url(address) matches Some(url) && candidate.url == url.text() && candidate.directness
        == classified(url)
}

/// Each finding is of a media candidate and carries the number of findings
/// before it, and no more values were visited than may be.
pub open spec fn is_sound(state: Collected) -> bool {
    &&& state.nodes <= MAX_JSON_NODES + 1
    &&& are_found(state.found)
}

/// Each finding is of a media candidate and carries the number of findings
/// before it.
pub open spec fn are_found(found: Seq<CandidateModel>) -> bool {
    forall|i: int|
        0 <= i < found.len() ==> (#[trigger] found[i]).order == i && exists|address: Seq<char>|
            is_of_candidate(found[i], address)
}

proof fn lemma_with_addresses(
    addresses: Seq<Seq<char>>,
    count: nat,
    source: SourceModel,
    path: Seq<char>,
    metadata: MetadataModel,
    key: Seq<char>,
    origin: Seq<char>,
    found: Seq<CandidateModel>,
)
    requires
        are_found(found),
    ensures
        are_found(
            with_addresses(addresses, count, source, path, metadata, key, origin, found),
        ),
    decreases count,
{
    if count > 0 {
        lemma_with_addresses(
            addresses,
            (count - 1) as nat,
            source,
            path,
            metadata,
            key,
            origin,
            found,
        );
        let after = with_addresses(addresses, count, source, path, metadata, key, origin, found);
        if candidate_url(addresses[count - 1]) is Some {
            assert(is_of_candidate(after.last(), addresses[count - 1]));
        }
    }
}

proof fn lemma_with_member(
    item: JsonMember,
    path: Seq<char>,
    metadata: MetadataModel,
    origin: Seq<char>,
    found: Seq<CandidateModel>,
)
    requires
        are_found(found),
    ensures
        are_found(with_member(item, path, metadata, origin, found)),
{
    if let Some(source) = source_of(key_normalized(item.key@)) {
        lemma_with_addresses(
            address_texts(item.value),
            address_texts(item.value).len(),
            source,
            path,
            metadata,
            item.key@,
            origin,
            found,
        );
    }
}

proof fn lemma_visited(
    node: Json,
    path: Seq<char>,
    origin: Seq<char>,
    levels: nat,
    state: Collected,
)
    requires
        is_sound(state),
    ensures
        is_sound(visited(node, path, origin, levels, state)),
    decreases levels, 0nat,
{
    if levels > 0 && state.nodes <= MAX_JSON_NODES {
        let counted = Collected { nodes: state.nodes + 1, ..state };
        match node {
            Json::Array(items) => {
                lemma_visited_items(
                    items@,
                    items@.len(),
                    path,
                    origin,
                    (levels - 1) as nat,
                    counted,
                );
            },
            Json::Object(members) => {
                lemma_visited_members(
                    members@,
                    members@.len(),
                    metadata_of(members@),
                    path,
                    origin,
                    (levels - 1) as nat,
                    counted,
                );
            },
            _ => {},
        }
    }
}

proof fn lemma_visited_items(
    items: Seq<Json>,
    count: nat,
    path: Seq<char>,
    origin: Seq<char>,
    levels: nat,
    state: Collected,
)
    requires
        is_sound(state),
    ensures
        is_sound(visited_items(items, count, path, origin, levels, state)),
    decreases levels, count + 1,
{
    if count > 0 {
        lemma_visited_items(items, (count - 1) as nat, path, origin, levels, state);
        lemma_visited(
            items[count - 1],
            item_path(path, (count - 1) as nat),
            origin,
            levels,
            visited_items(items, (count - 1) as nat, path, origin, levels, state),
        );
    }
}

proof fn lemma_visited_members(
    members: Seq<JsonMember>,
    count: nat,
    metadata: MetadataModel,
    path: Seq<char>,
    origin: Seq<char>,
    levels: nat,
    state: Collected,
)
    requires
        is_sound(state),
    ensures
        is_sound(visited_members(members, count, metadata, path, origin, levels, state)),
    decreases levels, count + 1,
{
    if count > 0 {
        lemma_visited_members(members, (count - 1) as nat, metadata, path, origin, levels, state);
        let before = visited_members(
            members,
            (count - 1) as nat,
            metadata,
            path,
            origin,
            levels,
            state,
        );
        let item = members[count - 1];
        let child_path = member_path(path, item.key@);
        lemma_with_member(item, child_path, metadata, origin, before.found);
        lemma_visited(
            item.value,
            child_path,
            origin,
            levels,
            Collected {
                found: with_member(item, child_path, metadata, origin, before.found),
                nodes: before.nodes,
            },
        );
    }
}

proof fn lemma_visited_roots(roots: Seq<Json>, count: nat, origin: Seq<char>, state: Collected)
    requires
        is_sound(state),
    ensures
        is_sound(visited_roots(roots, count, origin, state)),
    decreases count,
{
    if count > 0 {
        lemma_visited_roots(roots, (count - 1) as nat, origin, state);
        lemma_visited(
            roots[count - 1],
            item_path(origin, (count - 1) as nat),
            origin,
            MAX_JSON_LEVELS as nat,
            visited_roots(roots, (count - 1) as nat, origin, state),
        );
    }
}

proof fn lemma_document_visited(
    value: Json,
    origin: Seq<char>,
    video_id: Option<Seq<char>>,
    state: Collected,
)
    requires
        is_sound(state),
    ensures
        is_sound(document_visited(value, origin, video_id, state)),
{
    lemma_visited(value, origin, origin, MAX_JSON_LEVELS as nat, state);
    if let Some(id) = video_id {
        let roots = video_search(value, id).roots;
        lemma_visited_roots(roots, roots.len(), origin, state);
    }
}

proof fn lemma_payloads_visited(
    payloads: Seq<(Seq<char>, Json)>,
    count: nat,
    id: Option<Seq<char>>,
)
    ensures
        is_sound(payloads_visited(payloads, count, id)),
    decreases count,
{
    if count > 0 {
        lemma_payloads_visited(payloads, (count - 1) as nat, id);
        lemma_document_visited(
            payloads[count - 1].1,
            payloads[count - 1].0,
            id,
            payloads_visited(payloads, (count - 1) as nat, id),
        );
    }
}

proof fn lemma_with_elements(
    elements: Seq<Seq<Option<Seq<char>>>>,
    count: nat,
    meta: bool,
    found: Seq<CandidateModel>,
)
    requires
        are_found(found),
    ensures
        are_found(with_elements(elements, count, meta, found)),
    decreases count,
{
    if count > 0 {
        lemma_with_elements(elements, (count - 1) as nat, meta, found);
        let before = with_elements(elements, (count - 1) as nat, meta, found);
        let after = with_elements(elements, count, meta, found);
        let attributes = attributes_in(group_text(elements[count - 1], 1));
        let name = if meta {
            "content"@
        } else {
            "src"@
        };
        if after.len() > before.len() {
            let address = crate::markup::attribute(attributes, name)->0;
            assert(is_of_candidate(after.last(), address));
        }
    }
}

/// Whatever a page and the documents in it hold, each finding is of a media
/// candidate, findings are numbered in order, and there is a limit to the values
/// that are visited.
pub proof fn collection_is_sound(
    html: Seq<char>,
    payloads: Seq<(Seq<char>, Json)>,
    value: Json,
    origin: Seq<char>,
    id: Option<Seq<char>>,
)
    ensures
        is_sound(page_collected(html, payloads, id)),
        is_sound(value_collected(value, origin, id)),
{
    let state = payloads_visited(payloads, payloads.len(), id);
    lemma_payloads_visited(payloads, payloads.len(), id);
    let meta = regex_matches(crate::collect::META_PATTERN@, html);
    let media = regex_matches(crate::collect::MEDIA_PATTERN@, html);
    lemma_with_elements(meta, meta.len(), true, state.found);
    lemma_with_elements(
        media,
        media.len(),
        false,
        with_elements(meta, meta.len(), true, state.found),
    );
    lemma_document_visited(value, origin, id, nothing_collected());
}

/// The candidates come in the order in which their addresses were first found.
pub open spec fn in_order_found(candidates: Seq<CandidateModel>) -> bool {
    forall|i: int, j: int|
        0 <= i < j < candidates.len() ==> #[trigger] candidates[i].order
            < #[trigger] candidates[j].order
}

/// Of the first `count` findings there is one candidate for each address, and
/// the candidates come in the order in which the addresses were first found.
pub proof fn candidates_are_distinct(found: Seq<CandidateModel>, count: nat)
    requires
        are_found(found),
        count <= found.len(),
    ensures
        distinct_urls(merged_all(found, count)),
        in_order_found(merged_all(found, count)),
        forall|i: int|
            0 <= i < merged_all(found, count).len() ==> #[trigger] merged_all(found, count)[i].order
                < count,
        forall|k: int|
            0 <= k < count ==> has_url(merged_all(found, count), #[trigger] found[k].url),
    decreases count,
{
    if count > 0 {
        candidates_are_distinct(found, (count - 1) as nat);
        let before = merged_all(found, (count - 1) as nat);
        let other = found[count - 1];
        let after = merged_all(found, count);
        lemma_merge_keeps_distinct(before, other);
        let at = url_at(before, other.url);
        assert forall|i: int| 0 <= i < before.len() implies #[trigger] after[i].order
            == before[i].order by {}
        assert forall|i: int, j: int| 0 <= i < j < after.len() implies #[trigger] after[i].order
            < #[trigger] after[j].order by {
            if j < before.len() {
                assert(before[i].order < before[j].order);
            } else {
                assert(before[i].order < count - 1);
            }
        }
        assert forall|k: int| 0 <= k < count implies has_url(after, #[trigger] found[k].url) by {
            if k < count - 1 {
                assert(has_url(before, found[k].url));
                let i = choose|i: int|
                    0 <= i < before.len() && #[trigger] before[i].url == found[k].url;
                assert(after[i].url == found[k].url);
            }
        }
    }
}

/// One of the candidates has this address.
pub open spec fn has_url(candidates: Seq<CandidateModel>, url: Seq<char>) -> bool {
    exists|i: int| 0 <= i < candidates.len() && #[trigger] candidates[i].url == url
}

/// No two candidates were found first at the same time.
pub open spec fn distinct_orders(candidates: Seq<CandidateModel>) -> bool {
    forall|i: int, j: int|
        0 <= i < candidates.len() && 0 <= j < candidates.len() && #[trigger] candidates[i].order
            == #[trigger] candidates[j].order ==> i == j
}

/// The rank of candidates is settled by the candidates alone: there is one way
/// to rank them, in whatever order they are given.
pub proof fn ranking_is_unique(first: Seq<CandidateModel>, second: Seq<CandidateModel>)
    requires
        is_ranked(first),
        is_ranked(second),
        distinct_orders(first),
        first.to_multiset() == second.to_multiset(),
    ensures
        first == second,
    decreases first.len(),
{
    broadcast use vstd::seq_lib::group_to_multiset_ensures;

    vstd::seq_lib::to_multiset_len(first);
    vstd::seq_lib::to_multiset_len(second);
    if first.len() > 0 {
        let top = first[0];
        let other = second[0];
        assert(first.to_multiset().count(other) > 0) by {
            assert(second.contains(other));
        }
        assert(second.to_multiset().count(top) > 0) by {
            assert(first.contains(top));
        }
        assert(first.contains(other));
        assert(second.contains(top));
        let k = choose|k: int| 0 <= k < first.len() && first[k] == other;
        let l = choose|l: int| 0 <= l < second.len() && second[l] == top;
        assert(ranks_before(first[0], first[k]));
        assert(ranks_before(second[0], second[l]));
        assert(first[0].order == first[k].order);
        assert(top == other);
        let fewer = first.remove(0);
        let others = second.remove(0);
        assert(is_ranked(fewer)) by {
            assert forall|i: int, j: int| 0 <= i <= j < fewer.len() implies ranks_before(
                #[trigger] fewer[i],
                #[trigger] fewer[j],
            ) by {
                assert(ranks_before(first[i + 1], first[j + 1]));
            }
        }
        assert(is_ranked(others)) by {
            assert forall|i: int, j: int| 0 <= i <= j < others.len() implies ranks_before(
                #[trigger] others[i],
                #[trigger] others[j],
            ) by {
                assert(ranks_before(second[i + 1], second[j + 1]));
            }
        }
        assert(distinct_orders(fewer)) by {
            assert forall|i: int, j: int|
                0 <= i < fewer.len() && 0 <= j < fewer.len() && #[trigger] fewer[i].order
                    == #[trigger] fewer[j].order implies i == j by {
                assert(first[i + 1].order == first[j + 1].order);
            }
        }
        assert(fewer.to_multiset() =~= first.to_multiset().remove(top));
        assert(others.to_multiset() =~= second.to_multiset().remove(other));
        ranking_is_unique(fewer, others);
        assert(first =~= seq![top] + fewer);
        assert(second =~= seq![other] + others);
    } else {
        assert(first =~= second);
    }
}

/// The images are numbered in order, no two have the same address, and each is
/// at an address that images are fetched from.
pub open spec fn are_images(images: Seq<ImageModel>) -> bool {
    &&& forall|i: int|
        0 <= i < images.len() ==> (#[trigger] images[i]).index == i && exists|address: Seq<char>|
            is_of_image(images[i], address)
    &&& forall|i: int, j: int|
        0 <= i < j < images.len() ==> #[trigger] images[i].url != #[trigger] images[j].url
}

/// The image was found at an address that images are fetched from.
pub open spec fn is_of_image(image: ImageModel, address: Seq<char>) -> bool {
    image_url(address) matches Some(url) && image.url == url.text()
}

/// The images are sound, and a title that was found stays.
pub open spec fn follows(after: PostModel, before: PostModel) -> bool {
    &&& are_images(after.images)
    &&& before.title is Some ==> after.title == before.title
    &&& before.images.is_prefix_of(after.images)
}

proof fn lemma_with_images(images: Seq<ImageModel>, addresses: Seq<Seq<char>>, count: nat)
    requires
        are_images(images),
    ensures
        are_images(with_images(images, addresses, count)),
        images.is_prefix_of(with_images(images, addresses, count)),
    decreases count,
{
    if count > 0 {
        lemma_with_images(images, addresses, (count - 1) as nat);
        let before = with_images(images, addresses, (count - 1) as nat);
        let address = addresses[count - 1];
        let after = with_image(before, address);
        if image_url(address) is Some && !has_image(before, image_url(address)->0.text()) {
            assert(is_of_image(after.last(), address));
            assert forall|i: int, j: int| 0 <= i < j < after.len() implies #[trigger] after[i].url
                != #[trigger] after[j].url by {
                if j < before.len() {
                    assert(before[i].url != before[j].url);
                } else {
                    assert(before[i].url != after[j].url);
                }
            }
            assert(before.is_prefix_of(after));
        }
    }
}

proof fn lemma_with_list(images: Seq<ImageModel>, items: Seq<Json>, count: nat)
    requires
        are_images(images),
    ensures
        are_images(with_list(images, items, count)),
        images.is_prefix_of(with_list(images, items, count)),
    decreases count,
{
    if count > 0 {
        lemma_with_list(images, items, (count - 1) as nat);
        lemma_with_images(
            with_list(images, items, (count - 1) as nat),
            address_texts(items[count - 1]),
            address_texts(items[count - 1]).len(),
        );
    }
}

proof fn lemma_with_images_of(images: Seq<ImageModel>, members: Seq<JsonMember>, key: Seq<char>)
    requires
        are_images(images),
    ensures
        are_images(with_images_of(images, members, key)),
        images.is_prefix_of(with_images_of(images, members, key)),
{
    if let Some(Json::Array(items)) = crate::json::member(members, key) {
        lemma_with_list(images, items@, items@.len());
    }
}

proof fn lemma_post_noted(members: Seq<JsonMember>, post: PostModel)
    requires
        are_images(post.images),
    ensures
        follows(post_noted(members, post), post),
{
    let first = with_images_of(post.images, members, "images"@);
    lemma_with_images_of(post.images, members, "images"@);
    let second = with_images_of(first, members, "image_list"@);
    lemma_with_images_of(first, members, "image_list"@);
    let third = with_images_of(second, members, "imageList"@);
    lemma_with_images_of(second, members, "imageList"@);
    lemma_with_images_of(third, members, "image_list_v2"@);
}

proof fn lemma_post_visited(node: Json, levels: nat, post: PostModel)
    requires
        are_images(post.images),
    ensures
        follows(post_visited(node, levels, post), post),
    decreases levels, 0nat,
{
    if levels > 0 && post.images.len() < MAX_IMAGES {
        match node {
            Json::Object(members) => {
                lemma_post_noted(members@, post);
                lemma_post_visited_members(
                    members@,
                    members@.len(),
                    (levels - 1) as nat,
                    post_noted(members@, post),
                );
            },
            Json::Array(items) => {
                lemma_post_visited_items(items@, items@.len(), (levels - 1) as nat, post);
            },
            _ => {},
        }
    }
}

proof fn lemma_post_visited_items(items: Seq<Json>, count: nat, levels: nat, post: PostModel)
    requires
        are_images(post.images),
    ensures
        follows(post_visited_items(items, count, levels, post), post),
    decreases levels, count + 1,
{
    if count > 0 {
        lemma_post_visited_items(items, (count - 1) as nat, levels, post);
        lemma_post_visited(
            items[count - 1],
            levels,
            post_visited_items(items, (count - 1) as nat, levels, post),
        );
    }
}

proof fn lemma_post_visited_members(
    members: Seq<JsonMember>,
    count: nat,
    levels: nat,
    post: PostModel,
)
    requires
        are_images(post.images),
    ensures
        follows(post_visited_members(members, count, levels, post), post),
    decreases levels, count + 1,
{
    if count > 0 {
        lemma_post_visited_members(members, (count - 1) as nat, levels, post);
        lemma_post_visited(
            members[count - 1].value,
            levels,
            post_visited_members(members, (count - 1) as nat, levels, post),
        );
    }
}

/// Whatever a document holds, the images of a post are numbered in order, no two
/// have the same address, each is at an address that images are fetched from,
/// those that were found stay, and so does the first title that was found.
pub proof fn posts_are_sound(value: Json, post: PostModel)
    requires
        are_images(post.images),
    ensures
        follows(post_of(value, post), post),
{
    lemma_post_visited(value, MAX_JSON_LEVELS as nat, post);
}

/// Notes that are joined keep their order, lose none, and do not repeat.
pub proof fn notes_do_not_repeat(target: Seq<Seq<char>>, values: Seq<Seq<char>>, count: nat)
    requires
        target.no_duplicates(),
        count <= values.len(),
    ensures
        extended(target, values, count).no_duplicates(),
        target.is_prefix_of(extended(target, values, count)),
        forall|k: int|
            0 <= k < count ==> extended(target, values, count).contains(#[trigger] values[k]),
    decreases count,
{
    if count > 0 {
        notes_do_not_repeat(target, values, (count - 1) as nat);
        let before = extended(target, values, (count - 1) as nat);
        let value = values[count - 1];
        let after = extended(target, values, count);
        if !before.contains(value) {
            assert(after[before.len() as int] == value);
            assert forall|i: int, j: int| 0 <= i < after.len() && 0 <= j < after.len() && i
                != j implies after[i] != after[j] by {
                if i < before.len() && j < before.len() {
                    assert(before[i] != before[j]);
                } else if i < before.len() {
                    assert(before.contains(before[i]));
                } else {
                    assert(before.contains(before[j]));
                }
            }
        }
        assert forall|k: int| 0 <= k < count implies after.contains(#[trigger] values[k]) by {
            if k < count - 1 {
                assert(before.contains(values[k]));
                let i = choose|i: int| 0 <= i < before.len() && before[i] == values[k];
                assert(after[i] == values[k]);
            }
        }
    }
}

/// What is known of an address does not get worse where the address is found
/// again: its score, bit rate, width and height do not fall, and its place and a
/// known kind of playback stay.
pub proof fn findings_only_add(known: CandidateModel, other: CandidateModel)
    ensures
        combined(known, other).url == known.url,
        combined(known, other).order == known.order,
        combined(known, other).score >= known.score,
        combined(known, other).score >= other.score,
        no_less(combined(known, other).bitrate, known.bitrate),
        no_less(combined(known, other).bitrate, other.bitrate),
        no_less(combined(known, other).width, known.width),
        no_less(combined(known, other).width, other.width),
        no_less(combined(known, other).height, known.height),
        no_less(combined(known, other).height, other.height),
        known.playback_variant is Some ==> combined(known, other).playback_variant
            == known.playback_variant,
{
}

/// The first number is known where the second is, and is no less.
pub open spec fn no_less(first: Option<Reading>, second: Option<Reading>) -> bool {
    second matches Some(least) ==> first matches Some(found) && found.place >= least.place
}

} // verus!
