//! The readings of the numbers in a document: which texts they are of, how they
//! are given, and that they decide how candidates are weighed and nothing else.
use crate::candidates::{key_normalized, metadata_of, source_of, MetadataModel, SourceModel};
use crate::collect::{
    document_visited, item_path, member_path, nothing_collected, page_collected, page_visited,
    payloads_visited, value_collected, visited, visited_items, visited_members, visited_roots,
    with_addresses, with_elements, with_member, Collected, MEDIA_PATTERN, META_PATTERN,
};
use crate::images::{
    post_noted, post_of, post_visited, post_visited_items, post_visited_members, with_images_of,
    with_list, ImageModel, PostModel, MAX_IMAGES,
};
use crate::json::{
    address_texts, lemma_member_at, list_texts, member, member_at, Json, JsonMember, JsonNumber,
    JsonText, Reading,
};
use crate::markup::page_payloads;
use crate::patterns::{regex_matches, texts_model};
use crate::ranking::{combined, merged_all, url_at, CandidateModel};
use crate::response::page_post;
use crate::roots::{
    is_root, noted, searched, searched_items, searched_members, video_search, Search,
    MAX_JSON_LEVELS, MAX_JSON_NODES,
};
use vstd::prelude::*;

verus! {

/// The two documents are the same but for the readings of their numbers.
pub open spec fn alike(first: Json, second: Json) -> bool
    decreases first,
{
    match (first, second) {
        (Json::Null, Json::Null) => true,
        (Json::Bool(one), Json::Bool(other)) => one == other,
        (Json::Number(one), Json::Number(other)) => one.text@ == other.text@ && one.integer
            == other.integer,
        (Json::Text(one), Json::Text(other)) => one.text@ == other.text@,
        (Json::Array(one), Json::Array(other)) => {
            &&& one@.len() == other@.len()
            &&& forall|i: int| 0 <= i < one@.len() ==> alike(#[trigger] one@[i], other@[i])
        },
        (Json::Object(one), Json::Object(other)) => {
            &&& one@.len() == other@.len()
            &&& forall|i: int|
                0 <= i < one@.len() ==> (#[trigger] one@[i]).key@ == other@[i].key@ && alike(
                    one@[i].value,
                    other@[i].value,
                )
        },
        _ => false,
    }
}

spec fn alike_items(first: Seq<Json>, second: Seq<Json>) -> bool {
    &&& first.len() == second.len()
    &&& forall|i: int| 0 <= i < first.len() ==> alike(#[trigger] first[i], second[i])
}

spec fn alike_members(first: Seq<JsonMember>, second: Seq<JsonMember>) -> bool {
    &&& first.len() == second.len()
    &&& forall|i: int|
        0 <= i < first.len() ==> (#[trigger] first[i]).key@ == second[i].key@ && alike(
            first[i].value,
            second[i].value,
        )
}

/// The documents of two pages come from the same places, and are the same but
/// for the readings of their numbers.
pub open spec fn alike_payloads(
    first: Seq<(Seq<char>, Json)>,
    second: Seq<(Seq<char>, Json)>,
) -> bool {
    &&& first.len() == second.len()
    &&& forall|i: int|
        0 <= i < first.len() ==> (#[trigger] first[i]).0 == second[i].0 && alike(
            first[i].1,
            second[i].1,
        )
}

/// The candidate without what comes from readings.
pub open spec fn unread(candidate: CandidateModel) -> CandidateModel {
    CandidateModel { width: None, height: None, bitrate: None, score: 0, ..candidate }
}

/// The candidates are, one by one, the same but for what comes from readings:
/// they have the same addresses, paths, kinds, texts and places.
pub open spec fn alike_found(first: Seq<CandidateModel>, second: Seq<CandidateModel>) -> bool {
    &&& first.len() == second.len()
    &&& forall|i: int| 0 <= i < first.len() ==> unread(#[trigger] first[i]) == unread(second[i])
}

/// As many values were visited, and the findings are alike.
pub open spec fn alike_collected(first: Collected, second: Collected) -> bool {
    first.nodes == second.nodes && alike_found(first.found, second.found)
}

spec fn alike_search(first: Search, second: Search) -> bool {
    &&& first.nodes == second.nodes
    &&& first.identified == second.identified
    &&& alike_items(first.roots, second.roots)
}

/// The texts of a document that may be read as numbers, in order: those of its
/// numbers and strings.
pub open spec fn number_texts(json: Json) -> Seq<Seq<char>>
    decreases json,
{
    match json {
        Json::Number(number) => seq![number.text@],
        Json::Text(text) => seq![text.text@],
        Json::Array(items) => item_texts(items@, items@.len()),
        Json::Object(members) => member_texts(members@, members@.len()),
        _ => Seq::empty(),
    }
}

/// Those of the first `count` items.
pub open spec fn item_texts(items: Seq<Json>, count: nat) -> Seq<Seq<char>>
    decreases items, count,
{
    if count == 0 || count > items.len() {
        Seq::empty()
    } else {
        item_texts(items, (count - 1) as nat) + number_texts(items[count - 1])
    }
}

/// Those of the first `count` members.
pub open spec fn member_texts(members: Seq<JsonMember>, count: nat) -> Seq<Seq<char>>
    decreases members, count,
{
    if count == 0 || count > members.len() {
        Seq::empty()
    } else {
        member_texts(members, (count - 1) as nat) + number_texts(members[count - 1].value)
    }
}

/// The readings of a document's numbers and strings, in order.
pub open spec fn readings_in(json: Json) -> Seq<Option<Reading>>
    decreases json,
{
    match json {
        Json::Number(number) => seq![number.reading],
        Json::Text(text) => seq![text.reading],
        Json::Array(items) => item_readings(items@, items@.len()),
        Json::Object(members) => member_readings(members@, members@.len()),
        _ => Seq::empty(),
    }
}

/// Those of the first `count` items.
pub open spec fn item_readings(items: Seq<Json>, count: nat) -> Seq<Option<Reading>>
    decreases items, count,
{
    if count == 0 || count > items.len() {
        Seq::empty()
    } else {
        item_readings(items, (count - 1) as nat) + readings_in(items[count - 1])
    }
}

/// Those of the first `count` members.
pub open spec fn member_readings(members: Seq<JsonMember>, count: nat) -> Seq<Option<Reading>>
    decreases members, count,
{
    if count == 0 || count > members.len() {
        Seq::empty()
    } else {
        member_readings(members, (count - 1) as nat) + readings_in(members[count - 1].value)
    }
}

/// The readings from `from` on, as many as are asked for; those that are missing
/// are of no number.
pub open spec fn given(readings: Seq<Option<Reading>>, from: nat, count: nat) -> Seq<
    Option<Reading>,
> {
    Seq::new(
        count,
        |k: int|
            if from + k < readings.len() {
                readings[from + k]
            } else {
                None
            },
    )
}

/// The position after `count` readings, at most the end.
pub open spec fn position_after(readings: Seq<Option<Reading>>, from: nat, count: nat) -> nat {
    if from + count < readings.len() {
        from + count
    } else {
        readings.len()
    }
}

/// The texts of a document that may be read as numbers, in order.
pub fn collect_number_texts(json: &Json, texts: &mut Vec<String>)
    ensures
        texts_model(final(texts)@) == texts_model(old(texts)@) + number_texts(*json),
    decreases *json,
{
    let ghost before = texts_model(texts@);
    match json {
        Json::Number(number) => {
            texts.push(number.text.clone());
            assert(texts_model(texts@) =~= before + seq![number.text@]);
        },
        Json::Text(text) => {
            texts.push(text.text.clone());
            assert(texts_model(texts@) =~= before + seq![text.text@]);
        },
        Json::Array(items) => {
            collect_item_texts(items, texts);
        },
        Json::Object(members) => {
            collect_member_texts(members, texts);
        },
        _ => {
            assert(texts_model(texts@) =~= before + Seq::empty());
        },
    }
}

fn collect_item_texts(items: &Vec<Json>, texts: &mut Vec<String>)
    ensures
        texts_model(final(texts)@) == texts_model(old(texts)@) + item_texts(
            items@,
            items@.len(),
        ),
    decreases items@,
{
    let mut at: usize = 0;
    while at < items.len()
        invariant
            at <= items@.len(),
            texts_model(texts@) == texts_model(old(texts)@) + item_texts(items@, at as nat),
        decreases items@.len() - at,
    {
        collect_number_texts(&items[at], texts);
        at = at + 1;
        assert(texts_model(texts@) =~= texts_model(old(texts)@) + item_texts(items@, at as nat));
    }
}

fn collect_member_texts(members: &Vec<JsonMember>, texts: &mut Vec<String>)
    ensures
        texts_model(final(texts)@) == texts_model(old(texts)@) + member_texts(
            members@,
            members@.len(),
        ),
    decreases members@,
{
    let mut at: usize = 0;
    while at < members.len()
        invariant
            at <= members@.len(),
            texts_model(texts@) == texts_model(old(texts)@) + member_texts(members@, at as nat),
        decreases members@.len() - at,
    {
        collect_number_texts(&members[at].value, texts);
        at = at + 1;
        assert(texts_model(texts@) =~= texts_model(old(texts)@) + member_texts(
            members@,
            at as nat,
        ));
    }
}

/// The reading at a position, and the position after it.
fn next_reading(readings: &Vec<Option<Reading>>, from: usize) -> (next: (Option<Reading>, usize))
    requires
        from <= readings@.len(),
    ensures
        seq![next.0] == given(readings@, from as nat, 1),
        next.1 == position_after(readings@, from as nat, 1),
{
    let next: (Option<Reading>, usize) = if from < readings.len() {
        (readings[from], from + 1)
    } else {
        (None, from)
    };
    assert(seq![next.0] =~= given(readings@, from as nat, 1));
    next
}

/// Readings are given to one part after the other.
pub proof fn lemma_given(readings: Seq<Option<Reading>>, from: nat, first: nat, second: nat)
    requires
        from <= readings.len(),
    ensures
        given(readings, from, first) + given(
            readings,
            position_after(readings, from, first),
            second,
        ) == given(readings, from, first + second),
        position_after(readings, position_after(readings, from, first), second)
            == position_after(readings, from, first + second),
{
    assert(given(readings, from, first) + given(
        readings,
        position_after(readings, from, first),
        second,
    ) =~= given(readings, from, first + second));
}

/// The document with the readings from `from` on given to its numbers and
/// strings, in order, and the position after those that were given. Nothing but
/// the readings changes.
pub fn give_readings(json: Json, readings: &Vec<Option<Reading>>, from: usize) -> (read: (
    Json,
    usize,
))
    requires
        from <= readings@.len(),
    ensures
        alike(read.0, json),
        readings_in(read.0) == given(readings@, from as nat, number_texts(json).len()),
        read.1 == position_after(readings@, from as nat, number_texts(json).len()),
    decreases json,
{
    match json {
        Json::Number(number) => {
            let next = next_reading(readings, from);
            let JsonNumber { text, integer, reading: _ } = number;
            (Json::Number(JsonNumber { text, integer, reading: next.0 }), next.1)
        },
        Json::Text(text) => {
            let next = next_reading(readings, from);
            (Json::Text(JsonText { text: text.text, reading: next.0 }), next.1)
        },
        Json::Array(items) => {
            let read = give_item_readings(items, readings, from);
            (Json::Array(read.0), read.1)
        },
        Json::Object(members) => {
            let read = give_member_readings(members, readings, from);
            (Json::Object(read.0), read.1)
        },
        other => {
            assert(given(readings@, from as nat, 0) =~= Seq::empty());
            (other, from)
        },
    }
}

fn give_item_readings(items: Vec<Json>, readings: &Vec<Option<Reading>>, from: usize) -> (read: (
    Vec<Json>,
    usize,
))
    requires
        from <= readings@.len(),
    ensures
        alike_items(read.0@, items@),
        item_readings(read.0@, read.0@.len()) == given(
            readings@,
            from as nat,
            item_texts(items@, items@.len()).len(),
        ),
        read.1 == position_after(readings@, from as nat, item_texts(items@, items@.len()).len()),
    decreases items@,
{
    let mut read: Vec<Json> = Vec::new();
    let mut at: usize = from;
    assert(given(readings@, from as nat, 0) =~= Seq::empty());
    for item in iter: items
        invariant
            iter.seq() == items@,
            from <= readings@.len(),
            at <= readings@.len(),
            read@.len() == iter.index(),
            forall|i: int| 0 <= i < read@.len() ==> alike(#[trigger] read@[i], items@[i]),
            item_readings(read@, read@.len()) == given(
                readings@,
                from as nat,
                item_texts(items@, iter.index() as nat).len(),
            ),
            at == position_after(
                readings@,
                from as nat,
                item_texts(items@, iter.index() as nat).len(),
            ),
    {
        let ghost before = read@;
        let ghost count = iter.index() as nat;
        assert(item == items@[count as int]);
        assert(decreases_to!(items@ => items@[count as int]));
        proof {
            lemma_given(
                readings@,
                from as nat,
                item_texts(items@, count).len(),
                number_texts(item).len(),
            );
        }
        let next = give_readings(item, readings, at);
        at = next.1;
        read.push(next.0);
        proof {
            lemma_item_prefix(before, read@, count);
        }
    }
    (read, at)
}

fn give_member_readings(
    members: Vec<JsonMember>,
    readings: &Vec<Option<Reading>>,
    from: usize,
) -> (read: (Vec<JsonMember>, usize))
    requires
        from <= readings@.len(),
    ensures
        alike_members(read.0@, members@),
        member_readings(read.0@, read.0@.len()) == given(
            readings@,
            from as nat,
            member_texts(members@, members@.len()).len(),
        ),
        read.1 == position_after(
            readings@,
            from as nat,
            member_texts(members@, members@.len()).len(),
        ),
    decreases members@,
{
    let mut read: Vec<JsonMember> = Vec::new();
    let mut at: usize = from;
    assert(given(readings@, from as nat, 0) =~= Seq::empty());
    for member in iter: members
        invariant
            iter.seq() == members@,
            from <= readings@.len(),
            at <= readings@.len(),
            read@.len() == iter.index(),
            forall|i: int|
                0 <= i < read@.len() ==> (#[trigger] read@[i]).key@ == members@[i].key@ && alike(
                    read@[i].value,
                    members@[i].value,
                ),
            member_readings(read@, read@.len()) == given(
                readings@,
                from as nat,
                member_texts(members@, iter.index() as nat).len(),
            ),
            at == position_after(
                readings@,
                from as nat,
                member_texts(members@, iter.index() as nat).len(),
            ),
    {
        let ghost before = read@;
        let ghost count = iter.index() as nat;
        assert(member == members@[count as int]);
        assert(decreases_to!(members@ => members@[count as int].value));
        let JsonMember { key, value } = member;
        proof {
            lemma_given(
                readings@,
                from as nat,
                member_texts(members@, count).len(),
                number_texts(value).len(),
            );
        }
        let next = give_readings(value, readings, at);
        at = next.1;
        read.push(JsonMember { key, value: next.0 });
        proof {
            lemma_member_prefix(before, read@, count);
        }
    }
    (read, at)
}

/// The readings of the first items do not depend on those after them.
proof fn lemma_item_prefix(fewer: Seq<Json>, more: Seq<Json>, count: nat)
    requires
        count <= fewer.len(),
        fewer.is_prefix_of(more),
    ensures
        item_readings(fewer, count) == item_readings(more, count),
    decreases count,
{
    if count > 0 {
        lemma_item_prefix(fewer, more, (count - 1) as nat);
        assert(fewer[count - 1] == more[count - 1]);
    }
}

/// The readings of the first members do not depend on those after them.
proof fn lemma_member_prefix(fewer: Seq<JsonMember>, more: Seq<JsonMember>, count: nat)
    requires
        count <= fewer.len(),
        fewer.is_prefix_of(more),
    ensures
        member_readings(fewer, count) == member_readings(more, count),
    decreases count,
{
    if count > 0 {
        lemma_member_prefix(fewer, more, (count - 1) as nat);
        assert(fewer[count - 1] == more[count - 1]);
    }
}

/// What is like a document that is like a third is like the third.
pub proof fn alike_is_transitive(first: Json, second: Json, third: Json)
    requires
        alike(first, second),
        alike(second, third),
    ensures
        alike(first, third),
    decreases first,
{
    match (first, second, third) {
        (Json::Array(one), Json::Array(two), Json::Array(three)) => {
            assert forall|i: int| 0 <= i < one@.len() implies alike(#[trigger] one@[i], three@[i]) by {
                assert(alike(two@[i], three@[i]));
                alike_is_transitive(one@[i], two@[i], three@[i]);
            }
        },
        (Json::Object(one), Json::Object(two), Json::Object(three)) => {
            assert forall|i: int| 0 <= i < one@.len() implies (#[trigger] one@[i]).key@
                == three@[i].key@ && alike(one@[i].value, three@[i].value) by {
                assert(two@[i].key@ == three@[i].key@);
                alike_is_transitive(one@[i].value, two@[i].value, three@[i].value);
            }
        },
        _ => {},
    }
}

/// A document is like itself.
pub proof fn alike_is_reflexive(json: Json)
    ensures
        alike(json, json),
    decreases json,
{
    match json {
        Json::Array(items) => {
            assert forall|i: int| 0 <= i < items@.len() implies alike(
                #[trigger] items@[i],
                items@[i],
            ) by {
                alike_is_reflexive(items@[i]);
            }
        },
        Json::Object(members) => {
            assert forall|i: int| 0 <= i < members@.len() implies (#[trigger] members@[i]).key@
                == members@[i].key@ && alike(members@[i].value, members@[i].value) by {
                alike_is_reflexive(members@[i].value);
            }
        },
        _ => {},
    }
}

proof fn lemma_member(first: Seq<JsonMember>, second: Seq<JsonMember>, key: Seq<char>)
    requires
        alike_members(first, second),
    ensures
        member_at(first, key) == member_at(second, key),
        0 <= member_at(first, key) <= first.len(),
        member(first, key) is Some <==> member(second, key) is Some,
        member(first, key) is Some ==> alike(member(first, key)->0, member(second, key)->0),
    decreases first.len(),
{
    lemma_member_at(first, key);
    if first.len() > 0 && first[0].key@ != key {
        let (one, other) = (first.skip(1), second.skip(1));
        assert forall|i: int| 0 <= i < one.len() implies (#[trigger] one[i]).key@ == other[i].key@
            && alike(one[i].value, other[i].value) by {
            assert(one[i] == first[i + 1]);
        }
        lemma_member(one, other, key);
    }
    if first.len() > 0 {
        assert(first[0].key@ == second[0].key@);
    }
    if member_at(first, key) < first.len() {
        assert(first[member_at(first, key)].key@ == second[member_at(first, key)].key@);
    }
}

proof fn lemma_address_texts(first: Json, second: Json)
    requires
        alike(first, second),
    ensures
        address_texts(first) == address_texts(second),
    decreases first,
{
    match (first, second) {
        (Json::Array(one), Json::Array(other)) => {
            lemma_list_texts(one@, other@, one@.len());
        },
        (Json::Object(one), Json::Object(other)) => {
            lemma_member(one@, other@, "url_list"@);
            lemma_member(one@, other@, "urlList"@);
            lemma_member(one@, other@, "urls"@);
            lemma_member(one@, other@, "url"@);
            let at = member_at(one@, "url_list"@);
            if 0 <= at < one@.len() && one@[at].value is Array {
                assert(decreases_to!(first => one@[at].value->Array_0@));
                lemma_list_texts(
                    one@[at].value->Array_0@,
                    other@[at].value->Array_0@,
                    one@[at].value->Array_0@.len(),
                );
            }
            let at = member_at(one@, "urlList"@);
            if 0 <= at < one@.len() && one@[at].value is Array {
                assert(decreases_to!(first => one@[at].value->Array_0@));
                lemma_list_texts(
                    one@[at].value->Array_0@,
                    other@[at].value->Array_0@,
                    one@[at].value->Array_0@.len(),
                );
            }
            let at = member_at(one@, "urls"@);
            if 0 <= at < one@.len() && one@[at].value is Array {
                assert(decreases_to!(first => one@[at].value->Array_0@));
                lemma_list_texts(
                    one@[at].value->Array_0@,
                    other@[at].value->Array_0@,
                    one@[at].value->Array_0@.len(),
                );
            }
        },
        _ => {},
    }
}

proof fn lemma_list_texts(first: Seq<Json>, second: Seq<Json>, count: nat)
    requires
        alike_items(first, second),
        count <= first.len(),
    ensures
        list_texts(first, count) == list_texts(second, count),
    decreases first, count,
{
    if count > 0 {
        lemma_list_texts(first, second, (count - 1) as nat);
        lemma_address_texts(first[count - 1], second[count - 1]);
    }
}

proof fn lemma_metadata(first: Seq<JsonMember>, second: Seq<JsonMember>)
    requires
        alike_members(first, second),
    ensures
        metadata_of(first).codec == metadata_of(second).codec,
        metadata_of(first).format == metadata_of(second).format,
{
    lemma_member(first, second, "codec_type"@);
    lemma_member(first, second, "codecType"@);
    lemma_member(first, second, "codec"@);
    lemma_member(first, second, "format"@);
    lemma_member(first, second, "gear_name"@);
    lemma_member(first, second, "gearName"@);
}

proof fn lemma_root(first: Json, second: Json, id: Seq<char>)
    requires
        alike(first, second),
    ensures
        is_root(first, id) == is_root(second, id),
        forall|one: Search, other: Search|
            alike_search(one, other) ==> #[trigger] alike_search(
                noted(first, id, one),
                noted(second, id, other),
            ),
{
    if let (Json::Object(one), Json::Object(other)) = (first, second) {
        lemma_member(one@, other@, "aweme_id"@);
        lemma_member(one@, other@, "awemeId"@);
        lemma_member(one@, other@, "video"@);
    }
}

proof fn lemma_searched(
    first: Json,
    second: Json,
    id: Seq<char>,
    levels: nat,
    one: Search,
    other: Search,
)
    requires
        alike(first, second),
        alike_search(one, other),
    ensures
        alike_search(searched(first, id, levels, one), searched(second, id, levels, other)),
    decreases levels, 0nat,
{
    if levels > 0 && one.nodes <= MAX_JSON_NODES {
        let one = Search { nodes: one.nodes + 1, ..one };
        let other = Search { nodes: other.nodes + 1, ..other };
        assert(alike_search(one, other));
        lemma_root(first, second, id);
        match (first, second) {
            (Json::Object(members), Json::Object(others)) => {
                assert(alike_search(noted(first, id, one), noted(second, id, other)));
                lemma_searched_members(
                    members@,
                    others@,
                    members@.len(),
                    id,
                    (levels - 1) as nat,
                    noted(first, id, one),
                    noted(second, id, other),
                );
            },
            (Json::Array(items), Json::Array(others)) => {
                lemma_searched_items(
                    items@,
                    others@,
                    items@.len(),
                    id,
                    (levels - 1) as nat,
                    one,
                    other,
                );
            },
            _ => {},
        }
    }
}

proof fn lemma_searched_items(
    first: Seq<Json>,
    second: Seq<Json>,
    count: nat,
    id: Seq<char>,
    levels: nat,
    one: Search,
    other: Search,
)
    requires
        alike_items(first, second),
        count <= first.len(),
        alike_search(one, other),
    ensures
        alike_search(
            searched_items(first, count, id, levels, one),
            searched_items(second, count, id, levels, other),
        ),
    decreases levels, count + 1,
{
    if count > 0 {
        let fewer = (count - 1) as nat;
        lemma_searched_items(first, second, fewer, id, levels, one, other);
        lemma_searched(
            first[count - 1],
            second[count - 1],
            id,
            levels,
            searched_items(first, fewer, id, levels, one),
            searched_items(second, fewer, id, levels, other),
        );
    }
}

proof fn lemma_searched_members(
    first: Seq<JsonMember>,
    second: Seq<JsonMember>,
    count: nat,
    id: Seq<char>,
    levels: nat,
    one: Search,
    other: Search,
)
    requires
        alike_members(first, second),
        count <= first.len(),
        alike_search(one, other),
    ensures
        alike_search(
            searched_members(first, count, id, levels, one),
            searched_members(second, count, id, levels, other),
        ),
    decreases levels, count + 1,
{
    if count > 0 {
        let fewer = (count - 1) as nat;
        lemma_searched_members(first, second, fewer, id, levels, one, other);
        assert(first[count - 1].key@ == second[count - 1].key@);
        lemma_searched(
            first[count - 1].value,
            second[count - 1].value,
            id,
            levels,
            searched_members(first, fewer, id, levels, one),
            searched_members(second, fewer, id, levels, other),
        );
    }
}

proof fn lemma_with_addresses(
    addresses: Seq<Seq<char>>,
    count: nat,
    source: SourceModel,
    path: Seq<char>,
    metadata: MetadataModel,
    others: MetadataModel,
    key: Seq<char>,
    origin: Seq<char>,
    first: Seq<CandidateModel>,
    second: Seq<CandidateModel>,
)
    requires
        metadata.codec == others.codec,
        metadata.format == others.format,
        alike_found(first, second),
    ensures
        alike_found(
            with_addresses(addresses, count, source, path, metadata, key, origin, first),
            with_addresses(addresses, count, source, path, others, key, origin, second),
        ),
    decreases count,
{
    if count > 0 {
        lemma_with_addresses(
            addresses,
            (count - 1) as nat,
            source,
            path,
            metadata,
            others,
            key,
            origin,
            first,
            second,
        );
    }
}

proof fn lemma_with_member(
    item: JsonMember,
    other: JsonMember,
    path: Seq<char>,
    metadata: MetadataModel,
    others: MetadataModel,
    origin: Seq<char>,
    first: Seq<CandidateModel>,
    second: Seq<CandidateModel>,
)
    requires
        item.key@ == other.key@,
        alike(item.value, other.value),
        metadata.codec == others.codec,
        metadata.format == others.format,
        alike_found(first, second),
    ensures
        alike_found(
            with_member(item, path, metadata, origin, first),
            with_member(other, path, others, origin, second),
        ),
{
    lemma_address_texts(item.value, other.value);
    if let Some(source) = source_of(key_normalized(item.key@)) {
        lemma_with_addresses(
            address_texts(item.value),
            address_texts(item.value).len(),
            source,
            path,
            metadata,
            others,
            item.key@,
            origin,
            first,
            second,
        );
    }
}

proof fn lemma_visited(
    first: Json,
    second: Json,
    path: Seq<char>,
    origin: Seq<char>,
    levels: nat,
    one: Collected,
    other: Collected,
)
    requires
        alike(first, second),
        alike_collected(one, other),
    ensures
        alike_collected(
            visited(first, path, origin, levels, one),
            visited(second, path, origin, levels, other),
        ),
    decreases levels, 0nat,
{
    if levels > 0 && one.nodes <= MAX_JSON_NODES {
        let one = Collected { nodes: one.nodes + 1, ..one };
        let other = Collected { nodes: other.nodes + 1, ..other };
        match (first, second) {
            (Json::Array(items), Json::Array(others)) => {
                lemma_visited_items(
                    items@,
                    others@,
                    items@.len(),
                    path,
                    origin,
                    (levels - 1) as nat,
                    one,
                    other,
                );
            },
            (Json::Object(members), Json::Object(others)) => {
                lemma_metadata(members@, others@);
                lemma_visited_members(
                    members@,
                    others@,
                    members@.len(),
                    metadata_of(members@),
                    metadata_of(others@),
                    path,
                    origin,
                    (levels - 1) as nat,
                    one,
                    other,
                );
            },
            _ => {},
        }
    }
}

proof fn lemma_visited_items(
    first: Seq<Json>,
    second: Seq<Json>,
    count: nat,
    path: Seq<char>,
    origin: Seq<char>,
    levels: nat,
    one: Collected,
    other: Collected,
)
    requires
        alike_items(first, second),
        count <= first.len(),
        alike_collected(one, other),
    ensures
        alike_collected(
            visited_items(first, count, path, origin, levels, one),
            visited_items(second, count, path, origin, levels, other),
        ),
    decreases levels, count + 1,
{
    if count > 0 {
        let fewer = (count - 1) as nat;
        lemma_visited_items(first, second, fewer, path, origin, levels, one, other);
        lemma_visited(
            first[count - 1],
            second[count - 1],
            item_path(path, fewer),
            origin,
            levels,
            visited_items(first, fewer, path, origin, levels, one),
            visited_items(second, fewer, path, origin, levels, other),
        );
    }
}

proof fn lemma_visited_members(
    first: Seq<JsonMember>,
    second: Seq<JsonMember>,
    count: nat,
    metadata: MetadataModel,
    others: MetadataModel,
    path: Seq<char>,
    origin: Seq<char>,
    levels: nat,
    one: Collected,
    other: Collected,
)
    requires
        alike_members(first, second),
        count <= first.len(),
        metadata.codec == others.codec,
        metadata.format == others.format,
        alike_collected(one, other),
    ensures
        alike_collected(
            visited_members(first, count, metadata, path, origin, levels, one),
            visited_members(second, count, others, path, origin, levels, other),
        ),
    decreases levels, count + 1,
{
    if count > 0 {
        let fewer = (count - 1) as nat;
        lemma_visited_members(
            first,
            second,
            fewer,
            metadata,
            others,
            path,
            origin,
            levels,
            one,
            other,
        );
        let one = visited_members(first, fewer, metadata, path, origin, levels, one);
        let other = visited_members(second, fewer, others, path, origin, levels, other);
        let (item, mate) = (first[count - 1], second[count - 1]);
        assert(item.key@ == mate.key@ && alike(item.value, mate.value));
        let child = member_path(path, item.key@);
        lemma_with_member(
            item,
            mate,
            child,
            metadata,
            others,
            origin,
            one.found,
            other.found,
        );
        lemma_visited(
            item.value,
            mate.value,
            child,
            origin,
            levels,
            Collected {
                found: with_member(item, child, metadata, origin, one.found),
                nodes: one.nodes,
            },
            Collected {
                found: with_member(mate, child, others, origin, other.found),
                nodes: other.nodes,
            },
        );
    }
}

proof fn lemma_visited_roots(
    first: Seq<Json>,
    second: Seq<Json>,
    count: nat,
    origin: Seq<char>,
    one: Collected,
    other: Collected,
)
    requires
        alike_items(first, second),
        count <= first.len(),
        alike_collected(one, other),
    ensures
        alike_collected(
            visited_roots(first, count, origin, one),
            visited_roots(second, count, origin, other),
        ),
    decreases count,
{
    if count > 0 {
        let fewer = (count - 1) as nat;
        lemma_visited_roots(first, second, fewer, origin, one, other);
        lemma_visited(
            first[count - 1],
            second[count - 1],
            item_path(origin, fewer),
            origin,
            MAX_JSON_LEVELS as nat,
            visited_roots(first, fewer, origin, one),
            visited_roots(second, fewer, origin, other),
        );
    }
}

proof fn lemma_document_visited(
    first: Json,
    second: Json,
    origin: Seq<char>,
    id: Option<Seq<char>>,
    one: Collected,
    other: Collected,
)
    requires
        alike(first, second),
        alike_collected(one, other),
    ensures
        alike_collected(
            document_visited(first, origin, id, one),
            document_visited(second, origin, id, other),
        ),
{
    lemma_visited(first, second, origin, origin, MAX_JSON_LEVELS as nat, one, other);
    if let Some(id) = id {
        let start = Search { nodes: 0, roots: Seq::empty(), identified: false };
        lemma_searched(first, second, id, MAX_JSON_LEVELS as nat, start, start);
        let (found, others) = (video_search(first, id), video_search(second, id));
        assert(alike_search(found, others));
        lemma_visited_roots(found.roots, others.roots, found.roots.len(), origin, one, other);
    }
}

proof fn lemma_payloads_visited(
    first: Seq<(Seq<char>, Json)>,
    second: Seq<(Seq<char>, Json)>,
    count: nat,
    id: Option<Seq<char>>,
)
    requires
        alike_payloads(first, second),
        count <= first.len(),
    ensures
        alike_collected(
            payloads_visited(first, count, id),
            payloads_visited(second, count, id),
        ),
    decreases count,
{
    if count > 0 {
        let fewer = (count - 1) as nat;
        lemma_payloads_visited(first, second, fewer, id);
        assert(first[count - 1].0 == second[count - 1].0);
        lemma_document_visited(
            first[count - 1].1,
            second[count - 1].1,
            first[count - 1].0,
            id,
            payloads_visited(first, fewer, id),
            payloads_visited(second, fewer, id),
        );
    }
}

proof fn lemma_with_elements(
    elements: Seq<Seq<Option<Seq<char>>>>,
    count: nat,
    meta: bool,
    first: Seq<CandidateModel>,
    second: Seq<CandidateModel>,
)
    requires
        alike_found(first, second),
    ensures
        alike_found(
            with_elements(elements, count, meta, first),
            with_elements(elements, count, meta, second),
        ),
    decreases count,
{
    if count > 0 {
        lemma_with_elements(elements, (count - 1) as nat, meta, first, second);
    }
}

proof fn lemma_url_at(first: Seq<CandidateModel>, second: Seq<CandidateModel>, url: Seq<char>)
    requires
        alike_found(first, second),
    ensures
        url_at(first, url) == url_at(second, url),
    decreases first.len(),
{
    if first.len() > 0 {
        assert(unread(first[0]).url == unread(second[0]).url);
        if first[0].url != url {
            let (one, other) = (first.skip(1), second.skip(1));
            assert forall|i: int| 0 <= i < one.len() implies unread(#[trigger] one[i]) == unread(
                other[i],
            ) by {
                assert(one[i] == first[i + 1]);
            }
            lemma_url_at(one, other, url);
        }
    }
}

proof fn lemma_merged_all(first: Seq<CandidateModel>, second: Seq<CandidateModel>, count: nat)
    requires
        alike_found(first, second),
        count <= first.len(),
    ensures
        alike_found(merged_all(first, count), merged_all(second, count)),
    decreases count,
{
    if count > 0 {
        let fewer = (count - 1) as nat;
        lemma_merged_all(first, second, fewer);
        let (one, other) = (merged_all(first, fewer), merged_all(second, fewer));
        let (item, mate) = (first[count - 1], second[count - 1]);
        assert(unread(item) == unread(mate));
        assert(unread(item).url == unread(mate).url);
        assert(unread(item).playback_variant == unread(mate).playback_variant);
        assert(unread(item).evidence == unread(mate).evidence);
        assert(unread(item).sources == unread(mate).sources);
        lemma_url_at(one, other, item.url);
        let at = url_at(one, item.url);
        if 0 <= at < one.len() {
            let (known, mate_known) = (one[at], other[at]);
            assert(unread(known) == unread(mate_known));
            assert(unread(known).playback_variant == unread(mate_known).playback_variant);
            assert(unread(known).evidence == unread(mate_known).evidence);
            assert(unread(known).sources == unread(mate_known).sources);
            assert(unread(combined(known, item)) == unread(
                combined(mate_known, mate),
            ));
        }
    }
}

proof fn lemma_with_list(images: Seq<ImageModel>, first: Seq<Json>, second: Seq<Json>, count: nat)
    requires
        alike_items(first, second),
        count <= first.len(),
    ensures
        with_list(images, first, count) == with_list(images, second, count),
    decreases count,
{
    if count > 0 {
        lemma_with_list(images, first, second, (count - 1) as nat);
        lemma_address_texts(first[count - 1], second[count - 1]);
    }
}

proof fn lemma_with_images_of(
    images: Seq<ImageModel>,
    first: Seq<JsonMember>,
    second: Seq<JsonMember>,
    key: Seq<char>,
)
    requires
        alike_members(first, second),
    ensures
        with_images_of(images, first, key) == with_images_of(images, second, key),
{
    lemma_member(first, second, key);
    if let Some(Json::Array(one)) = member(first, key) {
        if let Some(Json::Array(other)) = member(second, key) {
            lemma_with_list(images, one@, other@, one@.len());
        }
    }
}

proof fn lemma_post_noted(first: Seq<JsonMember>, second: Seq<JsonMember>, post: PostModel)
    requires
        alike_members(first, second),
    ensures
        post_noted(first, post) == post_noted(second, post),
{
    lemma_member(first, second, "desc"@);
    lemma_member(first, second, "description"@);
    lemma_member(first, second, "title"@);
    let images = post.images;
    lemma_with_images_of(images, first, second, "images"@);
    let images = with_images_of(images, first, "images"@);
    lemma_with_images_of(images, first, second, "image_list"@);
    let images = with_images_of(images, first, "image_list"@);
    lemma_with_images_of(images, first, second, "imageList"@);
    let images = with_images_of(images, first, "imageList"@);
    lemma_with_images_of(images, first, second, "image_list_v2"@);
}

proof fn lemma_post_visited(first: Json, second: Json, levels: nat, post: PostModel)
    requires
        alike(first, second),
    ensures
        post_visited(first, levels, post) == post_visited(second, levels, post),
    decreases levels, 0nat,
{
    if levels > 0 && post.images.len() < MAX_IMAGES {
        match (first, second) {
            (Json::Object(one), Json::Object(other)) => {
                lemma_post_noted(one@, other@, post);
                lemma_post_visited_members(
                    one@,
                    other@,
                    one@.len(),
                    (levels - 1) as nat,
                    post_noted(one@, post),
                );
            },
            (Json::Array(one), Json::Array(other)) => {
                lemma_post_visited_items(one@, other@, one@.len(), (levels - 1) as nat, post);
            },
            _ => {},
        }
    }
}

proof fn lemma_post_visited_items(
    first: Seq<Json>,
    second: Seq<Json>,
    count: nat,
    levels: nat,
    post: PostModel,
)
    requires
        alike_items(first, second),
        count <= first.len(),
    ensures
        post_visited_items(first, count, levels, post) == post_visited_items(
            second,
            count,
            levels,
            post,
        ),
    decreases levels, count + 1,
{
    if count > 0 {
        let fewer = (count - 1) as nat;
        lemma_post_visited_items(first, second, fewer, levels, post);
        lemma_post_visited(
            first[count - 1],
            second[count - 1],
            levels,
            post_visited_items(first, fewer, levels, post),
        );
    }
}

proof fn lemma_post_visited_members(
    first: Seq<JsonMember>,
    second: Seq<JsonMember>,
    count: nat,
    levels: nat,
    post: PostModel,
)
    requires
        alike_members(first, second),
        count <= first.len(),
    ensures
        post_visited_members(first, count, levels, post) == post_visited_members(
            second,
            count,
            levels,
            post,
        ),
    decreases levels, count + 1,
{
    if count > 0 {
        let fewer = (count - 1) as nat;
        lemma_post_visited_members(first, second, fewer, levels, post);
        assert(first[count - 1].key@ == second[count - 1].key@);
        lemma_post_visited(
            first[count - 1].value,
            second[count - 1].value,
            levels,
            post_visited_members(first, fewer, levels, post),
        );
    }
}

proof fn lemma_page_post(
    first: Seq<(Seq<char>, Json)>,
    second: Seq<(Seq<char>, Json)>,
    count: nat,
)
    requires
        alike_payloads(first, second),
        count <= first.len(),
    ensures
        page_post(first, count) == page_post(second, count),
    decreases count,
{
    if count > 0 {
        lemma_page_post(first, second, (count - 1) as nat);
        assert(first[count - 1].0 == second[count - 1].0);
        lemma_post_visited(
            first[count - 1].1,
            second[count - 1].1,
            MAX_JSON_LEVELS as nat,
            page_post(first, (count - 1) as nat),
        );
    }
}

/// From documents that differ in readings alone, as many values are visited and
/// the same addresses are collected, in the same order, on the same paths and
/// with the same texts; the title and the images are the same.
pub proof fn readings_only_weigh_documents(
    first: Json,
    second: Json,
    origin: Seq<char>,
    id: Option<Seq<char>>,
    post: PostModel,
)
    requires
        alike(first, second),
    ensures
        ({
            let one = value_collected(first, origin, id);
            let other = value_collected(second, origin, id);
            &&& alike_collected(one, other)
            &&& alike_found(
                merged_all(one.found, one.found.len()),
                merged_all(other.found, other.found.len()),
            )
        }),
        post_of(first, post) == post_of(second, post),
{
    let start = nothing_collected();
    lemma_document_visited(first, second, origin, id, start, start);
    let one = value_collected(first, origin, id);
    let other = value_collected(second, origin, id);
    lemma_merged_all(one.found, other.found, one.found.len());
    lemma_post_visited(first, second, MAX_JSON_LEVELS as nat, post);
}

/// From the documents in a page's scripts, with their numbers read in any way,
/// as many values are visited and the same addresses are collected, in the same
/// order, on the same paths and with the same texts, as from the documents as
/// they stand in the page; the title and the images are the same.
pub proof fn readings_only_weigh_pages(
    html: Seq<char>,
    payloads: Seq<(Seq<char>, Json)>,
    id: Option<Seq<char>>,
)
    requires
        alike_payloads(payloads, page_payloads(html)),
    ensures
        ({
            let one = page_collected(html, payloads, id);
            let other = page_collected(html, page_payloads(html), id);
            &&& alike_collected(one, other)
            &&& alike_found(
                merged_all(one.found, one.found.len()),
                merged_all(other.found, other.found.len()),
            )
        }),
        page_post(payloads, payloads.len()) == page_post(
            page_payloads(html),
            page_payloads(html).len(),
        ),
{
    let others = page_payloads(html);
    lemma_payloads_visited(payloads, others, payloads.len(), id);
    let one = payloads_visited(payloads, payloads.len(), id);
    let other = payloads_visited(others, others.len(), id);
    let meta = regex_matches(META_PATTERN@, html);
    let media = regex_matches(MEDIA_PATTERN@, html);
    lemma_with_elements(meta, meta.len(), true, one.found, other.found);
    lemma_with_elements(
        media,
        media.len(),
        false,
        with_elements(meta, meta.len(), true, one.found),
        with_elements(meta, meta.len(), true, other.found),
    );
    let one = page_visited(html, one);
    let other = page_visited(html, other);
    lemma_merged_all(one.found, other.found, one.found.len());
    lemma_page_post(payloads, others, payloads.len());
}

} // verus!
