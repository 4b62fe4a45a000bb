//! What is read from pages and documents, stated by how they are written: the
//! data that scripts assign, the members of objects, the addresses in lists, and
//! the images and titles of posts.
use crate::address::image_url;
use crate::images::{
    has_image, post_noted, post_of, post_visited, post_visited_items, post_visited_members,
    with_image, with_images, with_images_of, with_list, ImageModel, PostModel,
};
use crate::json::{
    address_texts, json_parsed, list_texts, member, member_at, payload, Json, JsonMember, Reading,
};
use crate::markup::{attribute, attributes_of, page_payloads, payloads_of, script_payload};
use crate::patterns::regex_matches;
use crate::readings::{
    alike, given, item_readings, item_texts, member_readings, member_texts, number_texts,
    position_after, readings_in,
};
use crate::roots::{
    is_root, names_some_video, roots_are_found_in_order, seen_after, values_of, values_of_items,
    values_of_members, video_search,
};
use crate::script::{
    assigned_text, balanced_json, first_position, is_balanced, is_balanced_prefix,
    lemma_has_first, scan_step, scanned, Scan,
};
use crate::text::{is_first_at, is_space, lower, occurs_at, trim_start_by, trimmed};
use crate::text_laws::{is_around, is_blank, parts_stand_between_others};
use vstd::prelude::*;

verus! {

/// The data that a script assigns to a name: the balanced text that follows,
/// read as JSON.
pub open spec fn data_assigned(body: Seq<char>, name: Seq<char>) -> Option<Json> {
    match balanced_json(body, name) {
        Some(text) => payload(text, false),
        None => None,
    }
}

/// A script that assigns JSON to one of four names yields that JSON; where it
/// assigns to more than one, the first name in this order counts. What the
/// script's attributes say makes no difference then.
pub proof fn scripts_yield_what_they_assign(
    attributes: Seq<(Seq<char>, Seq<char>)>,
    body: Seq<char>,
)
    requires
        body.len() > 0,
    ensures
        ({
            let router = data_assigned(body, "window._ROUTER_DATA"@);
            let server = data_assigned(body, "window._SSR_DATA"@);
            let next = data_assigned(body, "window.__NEXT_DATA__"@);
            let universal = data_assigned(body, "window.__UNIVERSAL_DATA_FOR_REHYDRATION__"@);
            let found = script_payload(attributes, body);
            &&& router matches Some(data) ==> found == Some(("window._ROUTER_DATA"@, data))
            &&& router is None && (server is Some) ==> found == Some(
                ("window._SSR_DATA"@, server->0),
            )
            &&& router is None && server is None && next is Some ==> found == Some(
                ("window.__NEXT_DATA__"@, next->0),
            )
            &&& router is None && server is None && next is None && universal is Some ==> found
                == Some(("window.__UNIVERSAL_DATA_FOR_REHYDRATION__"@, universal->0))
            &&& router is Some || server is Some || next is Some || universal is Some ==> found is Some
        }),
{
}

/// A script that assigns nothing yields its body, if its number names render
/// data, or else if its type is JSON; render data are decoded from URI encoding.
/// Any other script yields nothing, and so does an empty one.
pub proof fn scripts_of_data_yield_their_body(
    attributes: Seq<(Seq<char>, Seq<char>)>,
    body: Seq<char>,
)
    ensures
        body.len() == 0 ==> script_payload(attributes, body) is None,
        body.len() > 0 && data_assigned(body, "window._ROUTER_DATA"@) is None && data_assigned(
            body,
            "window._SSR_DATA"@,
        ) is None && data_assigned(body, "window.__NEXT_DATA__"@) is None && data_assigned(
            body,
            "window.__UNIVERSAL_DATA_FOR_REHYDRATION__"@,
        ) is None ==> {
            let found = script_payload(attributes, body);
            let id = attribute(attributes, "id"@);
            let kind = attribute(attributes, "type"@);
            let is_render = id matches Some(id) && (lower(id) == "render_data"@ || lower(id)
                == "render-data"@);
            let is_json = kind matches Some(kind) && (lower(kind) == "application/json"@ || lower(
                kind,
            ) == "application/ld+json"@);
            &&& is_render && payload(body, true) is Some ==> found == Some(
                (id->0, payload(body, true)->0),
            )
            &&& !(is_render && payload(body, true) is Some) && is_json && payload(body, false) is Some
                ==> (found matches Some((source, value)) && value == payload(body, false)->0 && (
            if id is Some {
                source == id->0
            } else {
                source == lower(kind->0)
            }))
            &&& !(is_render && payload(body, true) is Some) && !(is_json && payload(
                body,
                false,
            ) is Some) ==> found is None
        },
{
}

/// Where an attribute is written more than once, the last one counts; other
/// attributes make no difference.
pub proof fn last_attributes_count(
    before: Seq<(Seq<char>, Seq<char>)>,
    name: Seq<char>,
    value: Seq<char>,
    after: Seq<(Seq<char>, Seq<char>)>,
)
    requires
        forall|i: int| 0 <= i < after.len() ==> (#[trigger] after[i]).0 != name,
    ensures
        attribute(before.push((name, value)) + after, name) == Some(value),
        attribute(before + after, name) == attribute(before, name),
        attribute(after, name) is None,
    decreases after.len(),
{
    if after.len() > 0 {
        let fewer = after.drop_last();
        assert forall|i: int| 0 <= i < fewer.len() implies (#[trigger] fewer[i]).0 != name by {
            assert(after[i].0 != name);
        }
        last_attributes_count(before, name, value, fewer);
        assert(after[after.len() - 1].0 != name);
        assert((before.push((name, value)) + after).drop_last() =~= before.push((name, value))
            + fewer);
        assert((before + after).drop_last() =~= before + fewer);
    } else {
        assert(before.push((name, value)) + after =~= before.push((name, value)));
        assert(before.push((name, value)).drop_last() =~= before);
        assert(before + after =~= before);
    }
}

/// Each attribute of a tag is named in small letters, and its value is what
/// stands in double quotes, in single quotes or without quotes.
pub proof fn attributes_are_read_in_order(
    found: Seq<Seq<Option<Seq<char>>>>,
    name: Seq<char>,
    value: Seq<char>,
)
    ensures
        ({
            let quoted = seq![None::<Seq<char>>, Some(name), Some(value), None, None];
            let single = seq![None::<Seq<char>>, Some(name), None, Some(value), None];
            let bare = seq![None::<Seq<char>>, Some(name), None, None, Some(value)];
            let alone = seq![None::<Seq<char>>, Some(name), None, None, None];
            let before = attributes_of(found, found.len());
            let count = found.len() + 1;
            &&& attributes_of(found.push(quoted), count) == before.push((lower(name), value))
            &&& attributes_of(found.push(single), count) == before.push((lower(name), value))
            &&& attributes_of(found.push(bare), count) == before.push((lower(name), value))
            &&& attributes_of(found.push(alone), count) == before.push((lower(name), Seq::empty()))
        }),
{
    let quoted = seq![None::<Seq<char>>, Some(name), Some(value), None, None];
    let single = seq![None::<Seq<char>>, Some(name), None, Some(value), None];
    let bare = seq![None::<Seq<char>>, Some(name), None, None, Some(value)];
    let alone = seq![None::<Seq<char>>, Some(name), None, None, None];
    lemma_attributes_prefix(found, quoted, found.len());
    lemma_attributes_prefix(found, single, found.len());
    lemma_attributes_prefix(found, bare, found.len());
    lemma_attributes_prefix(found, alone, found.len());
}

proof fn lemma_attributes_prefix(
    found: Seq<Seq<Option<Seq<char>>>>,
    last: Seq<Option<Seq<char>>>,
    count: nat,
)
    requires
        count <= found.len(),
    ensures
        attributes_of(found.push(last), count) == attributes_of(found, count),
    decreases count,
{
    if count > 0 {
        lemma_attributes_prefix(found, last, (count - 1) as nat);
    }
}

/// The scripts of a page are read one after the other, each by its attributes
/// and by its body without the white space around it; a script that yields
/// nothing is passed over.
pub proof fn scripts_are_read_in_order(
    found: Seq<Seq<Option<Seq<char>>>>,
    attributes: Seq<char>,
    body: Seq<char>,
)
    ensures
        ({
            let script = seq![None::<Seq<char>>, Some(attributes), Some(body)];
            let before = payloads_of(found, found.len());
            let after = payloads_of(found.push(script), found.len() + 1);
            match script_payload(crate::markup::attributes_in(attributes), trimmed(body)) {
                Some(data) => after == before.push(data),
                None => after == before,
            }
        }),
{
    let script = seq![None::<Seq<char>>, Some(attributes), Some(body)];
    lemma_payloads_prefix(found, script, found.len());
}

proof fn lemma_payloads_prefix(
    found: Seq<Seq<Option<Seq<char>>>>,
    last: Seq<Option<Seq<char>>>,
    count: nat,
)
    requires
        count <= found.len(),
    ensures
        payloads_of(found.push(last), count) == payloads_of(found, count),
    decreases count,
{
    if count > 0 {
        lemma_payloads_prefix(found, last, (count - 1) as nat);
    }
}

/// The scripts of a page and the attributes of a tag are what these patterns
/// match.
pub proof fn scripts_and_attributes_are_matched(html: Seq<char>, tag: Seq<char>)
    ensures
        ({
            let scripts = regex_matches(r"(?is)<script\b([^>]*)>(.*?)</script\s*>"@, html);
            page_payloads(html) == payloads_of(scripts, scripts.len())
        }),
        ({
            let found = regex_matches(
                r#"([^\s=/>]+)(?:\s*=\s*(?:"([^"]*)"|'([^']*)'|([^\s"'=<>`]+)))?"#@,
                tag,
            );
            crate::markup::attributes_in(tag) == attributes_of(found, found.len())
        }),
{
}

/// The text opens and closes as many brackets and strings, in the right order.
pub open spec fn is_nested(text: Seq<char>) -> bool {
    scanned(text) == (Scan {
        open: Seq::empty(),
        in_string: false,
        escaped: false,
        broken: false,
    })
}

/// The character is neither a bracket nor a quotation mark.
pub open spec fn is_plain(character: char) -> bool {
    character != '{' && character != '}' && character != '[' && character != ']' && character
        != '"'
}

/// Texts nest in brackets and one after the other; in strings brackets do not
/// count, nor does a quotation mark behind a backslash.
pub proof fn texts_nest_in_brackets(
    first: Seq<char>,
    second: Seq<char>,
    plain: char,
    quoted: Seq<char>,
    escaped: char,
)
    requires
        is_nested(first),
        is_nested(second),
        is_plain(plain),
        forall|i: int| 0 <= i < quoted.len() ==> #[trigger] quoted[i] != '"' && quoted[i] != '\\',
    ensures
        is_nested(Seq::empty()),
        is_nested(first + second),
        is_nested(first.push(plain)),
        is_nested(seq!['{'] + first + seq!['}']),
        is_nested(seq!['['] + first + seq![']']),
        is_nested(seq!['"'] + quoted + seq!['"']),
        is_nested(seq!['"'] + quoted + seq!['\\', escaped] + seq!['"']),
        is_balanced(first),
        !is_balanced(seq!['{'] + first + seq![']']),
        !is_balanced(seq!['['] + first + seq!['}']),
        !is_balanced(first.push('}')),
        !is_balanced(first.push(']')),
        !is_balanced(first.push('{')),
        !is_balanced(first.push('[')),
{
    lemma_after_nested(first, second);
    assert(first.push(plain).drop_last() =~= first);
    assert(first.push('}').drop_last() =~= first);
    assert(first.push(']').drop_last() =~= first);
    assert(first.push('{').drop_last() =~= first);
    assert(first.push('[').drop_last() =~= first);
    lemma_behind_bracket('{', first);
    lemma_behind_bracket('[', first);
    assert((seq!['{'] + Seq::<char>::empty()).drop_last() =~= Seq::empty());
    assert((seq!['['] + Seq::<char>::empty()).drop_last() =~= Seq::empty());
    assert((seq!['{'] + first + seq!['}']).drop_last() =~= seq!['{'] + first);
    assert((seq!['['] + first + seq![']']).drop_last() =~= seq!['['] + first);
    assert((seq!['{'] + first + seq![']']).drop_last() =~= seq!['{'] + first);
    assert((seq!['['] + first + seq!['}']).drop_last() =~= seq!['['] + first);
    lemma_in_string(quoted);
    assert((seq!['"'] + quoted + seq!['"']).drop_last() =~= seq!['"'] + quoted);
    let with_escape = seq!['"'] + quoted + seq!['\\', escaped];
    assert(with_escape.drop_last() =~= (seq!['"'] + quoted).push('\\'));
    assert((seq!['"'] + quoted).push('\\').drop_last() =~= seq!['"'] + quoted);
    assert(scanned((seq!['"'] + quoted).push('\\')).escaped);
    assert(scanned(with_escape).in_string && !scanned(with_escape).escaped);
    assert((with_escape + seq!['"']).drop_last() =~= with_escape);
}

proof fn lemma_after_nested(first: Seq<char>, second: Seq<char>)
    requires
        is_nested(first),
    ensures
        scanned(first + second) == scanned(second),
    decreases second.len(),
{
    if second.len() > 0 {
        lemma_after_nested(first, second.drop_last());
        assert((first + second).drop_last() =~= first + second.drop_last());
    } else {
        assert(first + second =~= first);
        assert(scanned(second).open =~= Seq::empty());
    }
}

proof fn lemma_in_string(quoted: Seq<char>)
    requires
        forall|i: int| 0 <= i < quoted.len() ==> #[trigger] quoted[i] != '"' && quoted[i] != '\\',
    ensures
        scanned(seq!['"'] + quoted) == (Scan {
            open: Seq::empty(),
            in_string: true,
            escaped: false,
            broken: false,
        }),
    decreases quoted.len(),
{
    if quoted.len() > 0 {
        let fewer = quoted.drop_last();
        assert forall|i: int| 0 <= i < fewer.len() implies #[trigger] fewer[i] != '"' && fewer[i]
            != '\\' by {
            assert(quoted[i] != '"');
        }
        lemma_in_string(fewer);
        assert((seq!['"'] + quoted).drop_last() =~= seq!['"'] + fewer);
        assert(quoted[quoted.len() - 1] != '"');
    } else {
        assert(seq!['"'] + quoted =~= seq!['"']);
        assert(seq!['"'].drop_last() =~= Seq::empty());
        reveal_with_fuel(scanned, 2);
    }
}

/// Behind an opening bracket, a text that breaks nothing leaves the bracket
/// open.
proof fn lemma_behind_bracket(bracket: char, inner: Seq<char>)
    requires
        bracket == '{' || bracket == '[',
        !scanned(inner).broken,
    ensures
        scanned(seq![bracket] + inner) == (Scan {
            open: seq![bracket] + scanned(inner).open,
            ..scanned(inner)
        }),
    decreases inner.len(),
{
    if inner.len() > 0 {
        let fewer = inner.drop_last();
        lemma_behind_bracket(bracket, fewer);
        assert((seq![bracket] + inner).drop_last() =~= seq![bracket] + fewer);
        let before = scanned(fewer);
        let after = scan_step(before, inner.last());
        let wide = scanned(seq![bracket] + fewer);
        if before.open.len() > 0 {
            assert((seq![bracket] + before.open).last() == before.open.last());
            assert((seq![bracket] + before.open).drop_last() =~= seq![bracket]
                + before.open.drop_last());
        }
        assert((seq![bracket] + before.open).push(inner.last()) =~= seq![bracket]
            + before.open.push(inner.last()));
        assert(scan_step(wide, inner.last()).open =~= seq![bracket] + after.open);
    } else {
        assert(seq![bracket] + inner =~= seq![bracket]);
        assert(seq![bracket].drop_last() =~= Seq::empty());
        reveal_with_fuel(scanned, 2);
        assert(Seq::<char>::empty().push(bracket) =~= seq![bracket]);
        assert(seq![bracket] + scanned(inner).open =~= seq![bracket]);
    }
}

proof fn lemma_unbroken(text: Seq<char>, count: int)
    requires
        0 <= count <= text.len(),
        !scanned(text).broken,
    ensures
        !scanned(text.take(count)).broken,
    decreases text.len(),
{
    if count < text.len() {
        lemma_unbroken(text.drop_last(), count);
        assert(text.drop_last().take(count) =~= text.take(count));
    } else {
        assert(text.take(count) =~= text);
    }
}

/// Where a name is followed by an equals sign, white space and a text in
/// brackets, that text is what is assigned, whatever follows it. The first place
/// of the name counts.
pub proof fn bracketed_texts_are_assigned(
    before: Seq<char>,
    name: Seq<char>,
    between: Seq<char>,
    blanks: Seq<char>,
    inner: Seq<char>,
    rest: Seq<char>,
)
    requires
        name.len() > 0,
        !is_around((before + name).drop_last(), name),
        !between.contains('='),
        forall|i: int| 0 <= i < blanks.len() ==> is_blank(#[trigger] blanks[i]),
        is_nested(inner),
    ensures
        balanced_json(
            before + name + between + seq!['='] + blanks + (seq!['{'] + inner + seq!['}']) + rest,
            name,
        ) == Some(seq!['{'] + inner + seq!['}']),
        balanced_json(
            before + name + between + seq!['='] + blanks + (seq!['['] + inner + seq![']']) + rest,
            name,
        ) == Some(seq!['['] + inner + seq![']']),
{
    lemma_assigned('{', '}', before, name, between, blanks, inner, rest);
    lemma_assigned('[', ']', before, name, between, blanks, inner, rest);
}

proof fn lemma_assigned(
    opening: char,
    closing: char,
    before: Seq<char>,
    name: Seq<char>,
    between: Seq<char>,
    blanks: Seq<char>,
    inner: Seq<char>,
    rest: Seq<char>,
)
    requires
        (opening == '{' && closing == '}') || (opening == '[' && closing == ']'),
        name.len() > 0,
        !is_around((before + name).drop_last(), name),
        !between.contains('='),
        forall|i: int| 0 <= i < blanks.len() ==> is_blank(#[trigger] blanks[i]),
        is_nested(inner),
    ensures
        balanced_json(
            before + name + between + seq!['='] + blanks + (seq![opening] + inner + seq![closing])
                + rest,
            name,
        ) == Some(seq![opening] + inner + seq![closing]),
{
    let json = seq![opening] + inner + seq![closing];
    let tail = blanks + json + rest;
    let after = between + seq!['='] + tail;
    let script = before + name + between + seq!['='] + blanks + json + rest;
    assert(script =~= before + name + after);
    let at = before.len() as int;
    assert(script.subrange(at, at + name.len()) =~= name);
    assert(occurs_at(script, name, at));
    assert forall|k: int| 0 <= k < at implies !occurs_at(script, name, k) by {
        let early = (before + name).drop_last();
        if occurs_at(script, name, k) {
            assert(early.subrange(k, k + name.len()) =~= script.subrange(k, k + name.len()));
            assert(occurs_at(early, name, k));
            parts_stand_between_others(early, name);
        }
    }
    assert(is_first_at(script, name, at));
    let place = first_position(script, name);
    assert(is_first_at(script, name, place));
    if place < at {
        assert(!occurs_at(script, name, place));
    } else if at < place {
        assert(!occurs_at(script, name, at));
    }
    assert(script.skip(at + name.len()) =~= after);
    let sign = seq!['='];
    let stop = between.len() as int;
    assert(after.subrange(stop, stop + 1) =~= sign);
    assert(occurs_at(after, sign, stop));
    assert forall|k: int| 0 <= k < stop implies !occurs_at(after, sign, k) by {
        assert(after[k] == between[k]);
        if occurs_at(after, sign, k) {
            assert(after.subrange(k, k + 1)[0] == after[k]);
            assert(between.contains('='));
        }
    }
    assert(is_first_at(after, sign, stop));
    let found = first_position(after, sign);
    assert(is_first_at(after, sign, found));
    if found < stop {
        assert(!occurs_at(after, sign, found));
    } else if stop < found {
        assert(!occurs_at(after, sign, stop));
    }
    assert(after.skip(stop + 1) =~= tail);
    let value = json + rest;
    assert(tail =~= blanks + value);
    crate::text_laws::lemma_trim_start(blanks, value);
    assert(value[0] == opening);
    assert(trim_start_by(value, |character: char| is_space(character)) == value);
    assert(assigned_text(script, name) == Some(value));
    let count = json.len() as int;
    lemma_behind_bracket(opening, inner);
    assert(json.drop_last() =~= seq![opening] + inner);
    assert(value.take(count) =~= json);
    assert((seq![opening] + Seq::<char>::empty()).drop_last() =~= Seq::empty());
    assert(is_balanced(value.take(count)));
    assert forall|fewer: int| 1 <= fewer < count implies !is_balanced(
        #[trigger] value.take(fewer),
    ) by {
        lemma_unbroken(inner, fewer - 1);
        lemma_behind_bracket(opening, inner.take(fewer - 1));
        assert(value.take(fewer) =~= seq![opening] + inner.take(fewer - 1));
    }
    assert(is_balanced_prefix(value, count));
    let chosen = choose|count: int| is_balanced_prefix(value, count);
    assert(is_balanced_prefix(value, chosen));
    if chosen < count {
        assert(!is_balanced(value.take(chosen)));
    } else if count < chosen {
        assert(!is_balanced(value.take(count)));
    }
}

/// Nothing is assigned where the name, the equals sign or the opening bracket is
/// missing.
pub proof fn nothing_is_assigned_without_a_bracket(
    script: Seq<char>,
    before: Seq<char>,
    name: Seq<char>,
    rest: Seq<char>,
)
    ensures
        !is_around(script, name) ==> balanced_json(script, name) is None,
        name.len() > 0 && !is_around((before + name).drop_last(), name) && !rest.contains('=')
            ==> balanced_json(before + name + rest, name) is None,
{
    parts_stand_between_others(script, name);
    if name.len() > 0 && !is_around((before + name).drop_last(), name) && !rest.contains('=') {
        let whole = before + name + rest;
        if balanced_json(whole, name) is Some {
            let place = first_position(whole, name);
            lemma_has_first(whole, name);
            if place < before.len() {
                let early = (before + name).drop_last();
                assert(early.subrange(place, place + name.len()) =~= whole.subrange(
                    place,
                    place + name.len(),
                ));
                assert(occurs_at(early, name, place));
                parts_stand_between_others(early, name);
            }
            let after = whole.skip(place + name.len());
            let found = first_position(after, seq!['=']);
            lemma_has_first(after, seq!['=']);
            assert(after.subrange(found, found + 1)[0] == after[found]);
            assert(rest[place - before.len() + found] == '=');
        }
    }
}

/// The member of an object is the first with its name.
pub proof fn first_members_count(
    before: Seq<JsonMember>,
    found: JsonMember,
    after: Seq<JsonMember>,
)
    requires
        forall|i: int| 0 <= i < before.len() ==> (#[trigger] before[i]).key@ != found.key@,
    ensures
        member(before + seq![found] + after, found.key@) == Some(found.value),
        member(before, found.key@) is None,
{
    lemma_member_at(before, found, after);
}

proof fn lemma_member_at(before: Seq<JsonMember>, found: JsonMember, after: Seq<JsonMember>)
    requires
        forall|i: int| 0 <= i < before.len() ==> (#[trigger] before[i]).key@ != found.key@,
    ensures
        member_at(before + seq![found] + after, found.key@) == before.len(),
        member_at(before, found.key@) == before.len(),
    decreases before.len(),
{
    let whole = before + seq![found] + after;
    if before.len() > 0 {
        let fewer = before.skip(1);
        assert forall|i: int| 0 <= i < fewer.len() implies (#[trigger] fewer[i]).key@
            != found.key@ by {
            assert(before[i + 1].key@ != found.key@);
        }
        lemma_member_at(fewer, found, after);
        assert(before[0].key@ != found.key@);
        assert(whole[0] == before[0]);
        assert(whole.skip(1) =~= fewer + seq![found] + after);
    } else {
        assert(whole[0] == found);
    }
}

pub open spec fn is_list(value: Option<Json>) -> bool {
    value matches Some(Json::Array(_))
}

/// The addresses of a string are the string itself, and those of a list are the
/// addresses of its items, one after the other. Those of an object are the
/// addresses of its first list of addresses, or else of its one address.
pub proof fn addresses_are_taken_in_order(value: Json, items: Vec<Json>, count: nat)
    ensures
        value matches Json::Text(text) ==> address_texts(value) == seq![text.text@],
        value matches Json::Array(list) ==> address_texts(value) == list_texts(
            list@,
            list@.len(),
        ),
        value is Null || value is Bool || value is Number ==> address_texts(value).len() == 0,
        list_texts(items@, 0).len() == 0,
        count < items@.len() ==> list_texts(items@, count + 1) == list_texts(items@, count)
            + address_texts(items@[count as int]),
        value matches Json::Object(members) ==> {
            let first = member(members@, "url_list"@);
            let second = member(members@, "urlList"@);
            let third = member(members@, "urls"@);
            let one = member(members@, "url"@);
            &&& is_list(first) ==> address_texts(value) == address_texts(first->0)
            &&& !is_list(first) && is_list(second) ==> address_texts(value) == address_texts(
                second->0,
            )
            &&& !is_list(first) && !is_list(second) && is_list(third) ==> address_texts(value)
                == address_texts(third->0)
            &&& !is_list(first) && !is_list(second) && !is_list(third) ==> (match one {
                Some(Json::Text(text)) => address_texts(value) == seq![text.text@],
                _ => address_texts(value).len() == 0,
            })
        },
{
    if let Json::Object(members) = value {
        lemma_member_at_bounds(members@, "url_list"@);
        lemma_member_at_bounds(members@, "urlList"@);
        lemma_member_at_bounds(members@, "urls"@);
        lemma_member_at_bounds(members@, "url"@);
        reveal_with_fuel(address_texts, 2);
    }
}

proof fn lemma_member_at_bounds(members: Seq<JsonMember>, key: Seq<char>)
    ensures
        0 <= member_at(members, key) <= members.len(),
    decreases members.len(),
{
    if members.len() > 0 && members[0].key@ != key {
        lemma_member_at_bounds(members.skip(1), key);
    }
}

/// The value stands in the other at most so many levels down, or is the other.
pub open spec fn reaches(value: Json, inner: Json, levels: nat) -> bool
    decreases levels,
{
    levels > 0 && (value == inner || match value {
        Json::Array(items) => exists|i: int|
            0 <= i < items@.len() && reaches(#[trigger] items@[i], inner, (levels - 1) as nat),
        Json::Object(members) => exists|i: int|
            0 <= i < members@.len() && reaches(
                (#[trigger] members@[i]).value,
                inner,
                (levels - 1) as nat,
            ),
        _ => false,
    })
}

/// The address is that of the image at this URL.
pub open spec fn is_image_at(address: Seq<char>, url: Seq<char>) -> bool {
    image_url(address) matches Some(found) && found.text() == url
}

/// One of the addresses is that of the image.
pub open spec fn some_image_at(addresses: Seq<Seq<char>>, url: Seq<char>) -> bool {
    exists|k: int| 0 <= k < addresses.len() && #[trigger] is_image_at(addresses[k], url)
}

/// The object has a list of this name, and an item of the list holds the
/// image's address.
pub open spec fn lists_image(members: Seq<JsonMember>, name: Seq<char>, url: Seq<char>) -> bool {
    member(members, name) matches Some(Json::Array(items)) && exists|i: int|
        0 <= i < items@.len() && #[trigger] some_image_at(address_texts(items@[i]), url)
}

/// The value is an object that lists the image.
pub open spec fn shows_image(value: Json, url: Seq<char>) -> bool {
    match value {
        Json::Object(members) => lists_image(members@, "images"@, url) || lists_image(
            members@,
            "image_list"@,
            url,
        ) || lists_image(members@, "imageList"@, url) || lists_image(
            members@,
            "image_list_v2"@,
            url,
        ),
        _ => false,
    }
}

proof fn lemma_with_images(
    images: Seq<ImageModel>,
    addresses: Seq<Seq<char>>,
    count: nat,
    url: Seq<char>,
)
    requires
        count <= addresses.len(),
    ensures
        images.is_prefix_of(with_images(images, addresses, count)),
        has_image(with_images(images, addresses, count), url) <==> has_image(images, url)
            || some_image_at(addresses.take(count as int), url),
    decreases count,
{
    let after = with_images(images, addresses, count);
    if count > 0 {
        let fewer = (count - 1) as nat;
        let before = with_images(images, addresses, fewer);
        lemma_with_images(images, addresses, fewer, url);
        let last = addresses[count - 1];
        assert(after == with_image(before, last));
        assert(addresses.take(count as int)[count - 1] == last);
        if has_image(before, url) {
            let k = choose|k: int| 0 <= k < before.len() && #[trigger] before[k].url == url;
            assert(after[k].url == url);
        }
        if some_image_at(addresses.take(fewer as int), url) {
            let k = choose|k: int|
                0 <= k < fewer && #[trigger] is_image_at(addresses.take(fewer as int)[k], url);
            assert(addresses.take(fewer as int)[k] == addresses.take(count as int)[k]);
            assert(is_image_at(addresses.take(count as int)[k], url));
        }
        if is_image_at(last, url) {
            assert(is_image_at(addresses.take(count as int)[count - 1], url));
            if !has_image(before, url) {
                assert(after[before.len() as int].url == url);
            }
        }
        if has_image(after, url) && !has_image(before, url) {
            let k = choose|k: int| 0 <= k < after.len() && #[trigger] after[k].url == url;
            if k < before.len() {
                assert(before[k].url == url);
            }
            assert(is_image_at(last, url));
        }
        if some_image_at(addresses.take(count as int), url) {
            let k = choose|k: int|
                0 <= k < count && #[trigger] is_image_at(addresses.take(count as int)[k], url);
            if k < fewer {
                assert(addresses.take(fewer as int)[k] == addresses.take(count as int)[k]);
                assert(is_image_at(addresses.take(fewer as int)[k], url));
            }
        }
    }
}

proof fn lemma_with_list(images: Seq<ImageModel>, items: Seq<Json>, count: nat, url: Seq<char>)
    requires
        count <= items.len(),
    ensures
        images.is_prefix_of(with_list(images, items, count)),
        has_image(with_list(images, items, count), url) <==> has_image(images, url) || exists|i: int|
            0 <= i < count && #[trigger] some_image_at(address_texts(items[i]), url),
    decreases count,
{
    if count > 0 {
        let fewer = (count - 1) as nat;
        lemma_with_list(images, items, fewer, url);
        let addresses = address_texts(items[count - 1]);
        lemma_with_images(with_list(images, items, fewer), addresses, addresses.len(), url);
        assert(addresses.take(addresses.len() as int) =~= addresses);
    }
}

proof fn lemma_with_images_of(
    images: Seq<ImageModel>,
    members: Seq<JsonMember>,
    name: Seq<char>,
    url: Seq<char>,
)
    ensures
        images.is_prefix_of(with_images_of(images, members, name)),
        has_image(with_images_of(images, members, name), url) <==> has_image(images, url)
            || lists_image(members, name, url),
{
    if let Some(Json::Array(items)) = member(members, name) {
        lemma_with_list(images, items@, items@.len(), url);
    }
}

proof fn lemma_prefix_has(before: Seq<ImageModel>, after: Seq<ImageModel>, url: Seq<char>)
    requires
        before.is_prefix_of(after),
        has_image(before, url),
    ensures
        has_image(after, url),
{
    let k = choose|k: int| 0 <= k < before.len() && #[trigger] before[k].url == url;
    assert(after[k] == before[k]);
}

/// An object adds to the images of a post just those whose addresses stand in
/// its lists of images, under any of four names. The images that were known
/// stay, in their places. Of two images that were not known, the one that is
/// listed under an earlier name comes first.
pub proof fn objects_add_the_images_they_list(members: Vec<JsonMember>, post: PostModel)
    ensures
        post.images.is_prefix_of(post_noted(members@, post).images),
        forall|url: Seq<char>| #[trigger]
            has_image(post_noted(members@, post).images, url) <==> has_image(post.images, url)
                || shows_image(Json::Object(members), url),
        forall|first: Seq<char>, second: Seq<char>|
            is_listed_before(members@, first, second) && !has_image(post.images, second) ==> (
            exists|k: int|
                0 <= k < post_noted(members@, post).images.len() && (#[trigger] post_noted(
                    members@,
                    post,
                ).images[k]).url == first && !has_image(
                    post_noted(members@, post).images.take(k),
                    second,
                )),
{
    let one = with_images_of(post.images, members@, "images"@);
    let two = with_images_of(one, members@, "image_list"@);
    let three = with_images_of(two, members@, "imageList"@);
    let four = with_images_of(three, members@, "image_list_v2"@);
    assert(four == post_noted(members@, post).images);
    assert forall|url: Seq<char>| #[trigger]
        has_image(four, url) <==> has_image(post.images, url) || shows_image(
            Json::Object(members),
            url,
        ) by {
        lemma_with_images_of(post.images, members@, "images"@, url);
        lemma_with_images_of(one, members@, "image_list"@, url);
        lemma_with_images_of(two, members@, "imageList"@, url);
        lemma_with_images_of(three, members@, "image_list_v2"@, url);
    }
    let any = Seq::<char>::empty();
    lemma_with_images_of(post.images, members@, "images"@, any);
    lemma_with_images_of(one, members@, "image_list"@, any);
    lemma_with_images_of(two, members@, "imageList"@, any);
    lemma_with_images_of(three, members@, "image_list_v2"@, any);
    assert forall|first: Seq<char>, second: Seq<char>|
        is_listed_before(members@, first, second) && !has_image(
            post.images,
            second,
        ) implies exists|k: int|
        0 <= k < four.len() && (#[trigger] four[k]).url == first && !has_image(
            four.take(k),
            second,
        ) by {
        lemma_with_images_of(post.images, members@, "images"@, first);
        lemma_with_images_of(one, members@, "image_list"@, first);
        lemma_with_images_of(two, members@, "imageList"@, first);
        lemma_with_images_of(post.images, members@, "images"@, second);
        lemma_with_images_of(one, members@, "image_list"@, second);
        lemma_with_images_of(two, members@, "imageList"@, second);
        if lists_image(members@, "images"@, first) && !lists_image(members@, "images"@, second) {
            lemma_found_before(one, four, first, second);
        } else if lists_image(members@, "image_list"@, first) && !lists_image(
            members@,
            "images"@,
            second,
        ) && !lists_image(members@, "image_list"@, second) {
            lemma_found_before(two, four, first, second);
        } else {
            lemma_found_before(three, four, first, second);
        }
    }
}

proof fn lemma_found_before(
    before: Seq<ImageModel>,
    after: Seq<ImageModel>,
    first: Seq<char>,
    second: Seq<char>,
)
    requires
        before.is_prefix_of(after),
        has_image(before, first),
        !has_image(before, second),
    ensures
        exists|k: int|
            0 <= k < after.len() && (#[trigger] after[k]).url == first && !has_image(
                after.take(k),
                second,
            ),
{
    let k = choose|k: int| 0 <= k < before.len() && #[trigger] before[k].url == first;
    assert(after[k] == before[k]);
    if has_image(after.take(k), second) {
        let i = choose|i: int|
            0 <= i < after.take(k).len() && #[trigger] after.take(k)[i].url == second;
        assert(before[i].url == second);
    }
}

/// The object lists the first image under a name, and the second neither under
/// that name nor under one before it.
pub open spec fn is_listed_before(
    members: Seq<JsonMember>,
    first: Seq<char>,
    second: Seq<char>,
) -> bool {
    ||| lists_image(members, "images"@, first) && !lists_image(members, "images"@, second)
    ||| lists_image(members, "image_list"@, first) && !lists_image(members, "images"@, second)
        && !lists_image(members, "image_list"@, second)
    ||| lists_image(members, "imageList"@, first) && !lists_image(members, "images"@, second)
        && !lists_image(members, "image_list"@, second) && !lists_image(
        members,
        "imageList"@,
        second,
    )
}

/// What is known of one image before and after a value was visited.
spec fn is_told(
    node: Json,
    levels: nat,
    before: PostModel,
    after: PostModel,
    url: Seq<char>,
) -> bool {
    &&& before.images.is_prefix_of(after.images)
    &&& has_image(after.images, url) ==> has_image(before.images, url) || exists|inner: Json|
        #[trigger] reaches(node, inner, levels) && shows_image(inner, url)
    &&& after.images.len() < 50 ==> forall|inner: Json|
        #[trigger] reaches(node, inner, levels) && shows_image(inner, url) ==> has_image(
            after.images,
            url,
        )
}

proof fn lemma_visited(node: Json, levels: nat, post: PostModel, url: Seq<char>)
    ensures
        is_told(node, levels, post, post_visited(node, levels, post), url),
    decreases levels, 0nat,
{
    if levels > 0 && post.images.len() < 50 {
        let below = (levels - 1) as nat;
        let after = post_visited(node, levels, post);
        match node {
            Json::Object(members) => {
                let noted = post_noted(members@, post);
                objects_add_the_images_they_list(members, post);
                assert(has_image(noted.images, url) <==> has_image(post.images, url)
                    || shows_image(node, url));
                lemma_visited_members(members@, members@.len(), below, noted, url);
                if has_image(after.images, url) && !has_image(post.images, url) {
                    if shows_image(node, url) {
                        assert(reaches(node, node, levels));
                    } else {
                        let (i, inner) = choose|i: int, inner: Json|
                            0 <= i < members@.len() && #[trigger] reaches(
                                members@[i].value,
                                inner,
                                below,
                            ) && shows_image(inner, url);
                        assert(reaches(node, inner, levels));
                    }
                }
                if after.images.len() < 50 {
                    assert forall|inner: Json| #[trigger]
                        reaches(node, inner, levels) && shows_image(
                            inner,
                            url,
                        ) implies has_image(after.images, url) by {
                        if inner == node {
                            lemma_prefix_has(noted.images, after.images, url);
                        } else {
                            let i = choose|i: int|
                                0 <= i < members@.len() && reaches(
                                    (#[trigger] members@[i]).value,
                                    inner,
                                    below,
                                );
                            assert(reaches(members@[i].value, inner, below));
                        }
                    }
                }
            },
            Json::Array(items) => {
                lemma_visited_items(items@, items@.len(), below, post, url);
                if has_image(after.images, url) && !has_image(post.images, url) {
                    let (i, inner) = choose|i: int, inner: Json|
                        0 <= i < items@.len() && #[trigger] reaches(items@[i], inner, below)
                            && shows_image(inner, url);
                    assert(reaches(node, inner, levels));
                }
                if after.images.len() < 50 {
                    assert forall|inner: Json| #[trigger]
                        reaches(node, inner, levels) && shows_image(
                            inner,
                            url,
                        ) implies has_image(after.images, url) by {
                        let i = choose|i: int|
                            0 <= i < items@.len() && reaches(#[trigger] items@[i], inner, below);
                        assert(reaches(items@[i], inner, below));
                    }
                }
            },
            _ => {},
        }
    }
}

proof fn lemma_visited_items(
    items: Seq<Json>,
    count: nat,
    levels: nat,
    post: PostModel,
    url: Seq<char>,
)
    requires
        count <= items.len(),
    ensures
        ({
            let after = post_visited_items(items, count, levels, post);
            &&& post.images.is_prefix_of(after.images)
            &&& has_image(after.images, url) ==> has_image(post.images, url) || exists|
                i: int,
                inner: Json,
            |
                0 <= i < count && #[trigger] reaches(items[i], inner, levels) && shows_image(
                    inner,
                    url,
                )
            &&& after.images.len() < 50 ==> forall|i: int, inner: Json|
                0 <= i < count && #[trigger] reaches(items[i], inner, levels) && shows_image(
                    inner,
                    url,
                ) ==> has_image(after.images, url)
        }),
    decreases levels, count + 1,
{
    if count > 0 {
        let fewer = (count - 1) as nat;
        lemma_visited_items(items, fewer, levels, post, url);
        let before = post_visited_items(items, fewer, levels, post);
        let after = post_visited_items(items, count, levels, post);
        lemma_visited(items[count - 1], levels, before, url);
        if has_image(before.images, url) {
            lemma_prefix_has(before.images, after.images, url);
        }
        if after.images.len() < 50 {
            assert forall|i: int, inner: Json|
                0 <= i < count && #[trigger] reaches(items[i], inner, levels) && shows_image(
                    inner,
                    url,
                ) implies has_image(after.images, url) by {}
        }
    }
}

proof fn lemma_visited_members(
    members: Seq<JsonMember>,
    count: nat,
    levels: nat,
    post: PostModel,
    url: Seq<char>,
)
    requires
        count <= members.len(),
    ensures
        ({
            let after = post_visited_members(members, count, levels, post);
            &&& post.images.is_prefix_of(after.images)
            &&& has_image(after.images, url) ==> has_image(post.images, url) || exists|
                i: int,
                inner: Json,
            |
                0 <= i < count && #[trigger] reaches(members[i].value, inner, levels)
                    && shows_image(inner, url)
            &&& after.images.len() < 50 ==> forall|i: int, inner: Json|
                0 <= i < count && #[trigger] reaches(members[i].value, inner, levels)
                    && shows_image(inner, url) ==> has_image(after.images, url)
        }),
    decreases levels, count + 1,
{
    if count > 0 {
        let fewer = (count - 1) as nat;
        lemma_visited_members(members, fewer, levels, post, url);
        let before = post_visited_members(members, fewer, levels, post);
        let after = post_visited_members(members, count, levels, post);
        lemma_visited(members[count - 1].value, levels, before, url);
        if has_image(before.images, url) {
            lemma_prefix_has(before.images, after.images, url);
        }
    }
}

/// An object that is visited while fewer than fifty images are known adds every
/// image that it lists, under each of the four names: each address in an item of
/// such a list that is one of an image is the address of an image afterwards.
pub proof fn listed_images_are_found(
    members: Vec<JsonMember>,
    levels: nat,
    post: PostModel,
    name: Seq<char>,
    items: Vec<Json>,
    item: int,
    address: int,
)
    requires
        levels > 0,
        post.images.len() < 50,
        name == "images"@ || name == "image_list"@ || name == "imageList"@ || name
            == "image_list_v2"@,
        member(members@, name) == Some(Json::Array(items)),
        0 <= item < items@.len(),
        0 <= address < address_texts(items@[item]).len(),
    ensures
        image_url(address_texts(items@[item])[address]) matches Some(url) ==> exists|k: int|
            0 <= k < post_visited(Json::Object(members), levels, post).images.len()
                && #[trigger] post_visited(Json::Object(members), levels, post).images[k].url
                == url.text(),
{
    let node = Json::Object(members);
    let text = address_texts(items@[item])[address];
    if let Some(found) = image_url(text) {
        let url = found.text();
        assert(is_image_at(address_texts(items@[item])[address], url));
        assert(some_image_at(address_texts(items@[item]), url));
        assert(lists_image(members@, name, url));
        assert(shows_image(node, url));
        objects_add_the_images_they_list(members, post);
        let noted = post_noted(members@, post);
        assert(has_image(noted.images, url));
        lemma_visited_members(members@, members@.len(), (levels - 1) as nat, noted, url);
        lemma_prefix_has(noted.images, post_visited(node, levels, post).images, url);
        assert(has_image(post_visited(node, levels, post).images, url));
    }
}

/// The images of a document are those that its objects list, as deep as sixty
/// five levels: no other images are found, and unless the limit of fifty is
/// reached, none are missed.
pub proof fn documents_show_the_images_of_their_objects(
    value: Json,
    post: PostModel,
    url: Seq<char>,
)
    ensures
        has_image(post_of(value, post).images, url) ==> has_image(post.images, url) || exists|
            inner: Json,
        | #[trigger]
            reaches(value, inner, 65) && shows_image(inner, url),
        post_of(value, post).images.len() < 50 ==> forall|inner: Json| #[trigger]
            reaches(value, inner, 65) && shows_image(inner, url) ==> has_image(
                post_of(value, post).images,
                url,
            ),
{
    lemma_visited(value, 65, post, url);
}

/// Items are visited in their order: one more item adds its images behind those
/// of the items before it, and titles the post only where they did not.
pub proof fn items_add_images_in_order(
    items: Vec<Json>,
    more: Vec<Json>,
    last: Json,
    levels: nat,
    post: PostModel,
)
    requires
        levels > 0,
        post.images.len() < 50,
        more@ == items@.push(last),
    ensures
        post_visited(Json::Array(more), levels, post) == post_visited(
            last,
            (levels - 1) as nat,
            post_visited(Json::Array(items), levels, post),
        ),
{
    lemma_items_prefix(items@, last, items@.len(), (levels - 1) as nat, post);
}

proof fn lemma_items_prefix(
    items: Seq<Json>,
    last: Json,
    count: nat,
    levels: nat,
    post: PostModel,
)
    requires
        count <= items.len(),
    ensures
        post_visited_items(items.push(last), count, levels, post) == post_visited_items(
            items,
            count,
            levels,
            post,
        ),
    decreases count,
{
    if count > 0 {
        lemma_items_prefix(items, last, (count - 1) as nat, levels, post);
    }
}

/// The values that are searched for a video are those that stand in the
/// document, as deep as sixty five levels. So, unless more than fifty thousand
/// values were visited, the objects that are found are just those that name the
/// video and hold it.
pub proof fn videos_are_found_wherever_they_stand(value: Json, id: Seq<char>, inner: Json)
    ensures
        video_search(value, id).roots.contains(inner) ==> reaches(value, inner, 65) && is_root(
            inner,
            id,
        ),
        video_search(value, id).nodes <= 50000 && reaches(value, inner, 65) && is_root(inner, id)
            ==> video_search(value, id).roots.contains(inner),
        video_search(value, id).nodes <= 50000 && reaches(value, inner, 65) && names_some_video(
            inner,
        ) ==> video_search(value, id).identified,
{
    roots_are_found_in_order(value, id);
    let all = values_of(value, 65);
    let seen = seen_after(all, 0);
    let keep = |node: Json| is_root(node, id);
    lemma_values(value, 65, inner);
    lemma_filter(seen, keep, inner);
    if seen.contains(inner) {
        let i = choose|i: int| 0 <= i < seen.len() && seen[i] == inner;
        assert(all[i] == inner);
        assert(all.contains(inner));
    }
    if video_search(value, id).nodes <= 50000 && reaches(value, inner, 65) {
        assert(seen == all);
        let i = choose|i: int| 0 <= i < all.len() && all[i] == inner;
        assert(seen[i] == inner);
        assert(names_some_video(inner) ==> names_some_video(seen[i]));
    }
}

proof fn lemma_filter(values: Seq<Json>, keep: spec_fn(Json) -> bool, sought: Json)
    ensures
        values.filter(keep).contains(sought) <==> values.contains(sought) && keep(sought),
    decreases values.len(),
{
    reveal(Seq::filter);
    if values.len() > 0 {
        let fewer = values.drop_last();
        lemma_filter(fewer, keep, sought);
        let before = fewer.filter(keep);
        let after = values.filter(keep);
        let last = values.last();
        if after.contains(sought) {
            let i = choose|i: int| 0 <= i < after.len() && after[i] == sought;
            if i < before.len() {
                assert(before[i] == sought);
                let k = choose|k: int| 0 <= k < fewer.len() && fewer[k] == sought;
                assert(values[k] == sought);
            } else {
                assert(values[values.len() - 1] == sought);
            }
        }
        if values.contains(sought) && keep(sought) {
            let k = choose|k: int| 0 <= k < values.len() && values[k] == sought;
            if k < fewer.len() {
                assert(fewer[k] == sought);
                let i = choose|i: int| 0 <= i < before.len() && before[i] == sought;
                assert(after[i] == sought);
            } else {
                assert(after[before.len() as int] == sought);
            }
        }
    }
}

proof fn lemma_values(node: Json, levels: nat, inner: Json)
    ensures
        values_of(node, levels).contains(inner) <==> reaches(node, inner, levels),
    decreases levels, 0nat,
{
    if levels > 0 {
        let below = (levels - 1) as nat;
        let all = values_of(node, levels);
        assert(all[0] == node);
        match node {
            Json::Object(members) => {
                let rest = values_of_members(members@, members@.len(), below);
                lemma_values_of_members(members@, members@.len(), below, inner);
                lemma_one_and(node, rest, inner);
            },
            Json::Array(items) => {
                let rest = values_of_items(items@, items@.len(), below);
                lemma_values_of_items(items@, items@.len(), below, inner);
                lemma_one_and(node, rest, inner);
            },
            _ => {
                lemma_one_and(node, Seq::empty(), inner);
            },
        }
    }
}

proof fn lemma_one_and(node: Json, rest: Seq<Json>, inner: Json)
    ensures
        (seq![node] + rest).contains(inner) <==> node == inner || rest.contains(inner),
{
    let all = seq![node] + rest;
    assert(all[0] == node);
    if rest.contains(inner) {
        let i = choose|i: int| 0 <= i < rest.len() && rest[i] == inner;
        assert(all[i + 1] == inner);
    }
    if all.contains(inner) && node != inner {
        let i = choose|i: int| 0 <= i < all.len() && all[i] == inner;
        assert(rest[i - 1] == inner);
    }
}

proof fn lemma_both(first: Seq<Json>, second: Seq<Json>, inner: Json)
    ensures
        (first + second).contains(inner) <==> first.contains(inner) || second.contains(inner),
{
    let all = first + second;
    if first.contains(inner) {
        let i = choose|i: int| 0 <= i < first.len() && first[i] == inner;
        assert(all[i] == inner);
    }
    if second.contains(inner) {
        let i = choose|i: int| 0 <= i < second.len() && second[i] == inner;
        assert(all[first.len() + i] == inner);
    }
    if all.contains(inner) {
        let i = choose|i: int| 0 <= i < all.len() && all[i] == inner;
        if i < first.len() {
            assert(first[i] == inner);
        } else {
            assert(second[i - first.len()] == inner);
        }
    }
}

proof fn lemma_values_of_items(items: Seq<Json>, count: nat, levels: nat, inner: Json)
    requires
        count <= items.len(),
    ensures
        values_of_items(items, count, levels).contains(inner) <==> exists|i: int|
            0 <= i < count && reaches(#[trigger] items[i], inner, levels),
    decreases levels, count + 1,
{
    if count > 0 {
        let fewer = (count - 1) as nat;
        lemma_values_of_items(items, fewer, levels, inner);
        lemma_values(items[count - 1], levels, inner);
        lemma_both(
            values_of_items(items, fewer, levels),
            values_of(items[count - 1], levels),
            inner,
        );
    }
}

proof fn lemma_values_of_members(
    members: Seq<JsonMember>,
    count: nat,
    levels: nat,
    inner: Json,
)
    requires
        count <= members.len(),
    ensures
        values_of_members(members, count, levels).contains(inner) <==> exists|i: int|
            0 <= i < count && reaches((#[trigger] members[i]).value, inner, levels),
    decreases levels, count + 1,
{
    if count > 0 {
        let fewer = (count - 1) as nat;
        lemma_values_of_members(members, fewer, levels, inner);
        lemma_values(members[count - 1].value, levels, inner);
        lemma_both(
            values_of_members(members, fewer, levels),
            values_of(members[count - 1].value, levels),
            inner,
        );
    }
}

/// A post is titled by the first object that has a title: its `desc`, or else
/// its `description`, or else its `title`, without white space around it. A text
/// of white space alone is no title, and a title that was found stays.
pub proof fn posts_are_titled_by_their_description(members: Seq<JsonMember>, post: PostModel)
    ensures
        ({
            let title = post_noted(members, post).title;
            let first = words_of(member(members, "desc"@));
            let second = words_of(member(members, "description"@));
            let third = words_of(member(members, "title"@));
            &&& post.title is Some ==> title == post.title
            &&& post.title is None && first.len() > 0 ==> title == Some(first)
            &&& post.title is None && first.len() == 0 && second.len() > 0 ==> title == Some(second)
            &&& post.title is None && first.len() == 0 && second.len() == 0 && third.len() > 0
                ==> title == Some(third)
            &&& post.title is None && first.len() == 0 && second.len() == 0 && third.len() == 0
                ==> title is None
        }),
{
}

/// The words of a text, without white space around them; nothing of any other
/// value.
pub open spec fn words_of(value: Option<Json>) -> Seq<char> {
    match value {
        Some(Json::Text(text)) => trimmed(text.text@),
        _ => Seq::empty(),
    }
}

/// JSON that stands in a text is read with the white space around it left out
/// and its entities decoded. A string is taken for JSON in turn, twice at most.
/// A text that begins as URI-encoded JSON is decoded from URI encoding first,
/// and so is one that is known to be encoded.
pub proof fn payloads_are_decoded(text: Seq<char>, encoded: bool)
    ensures
        ({
            let plain = crate::decode::entities_decoded(trimmed(text));
            let small = lower(plain);
            let starts = encoded || "%7b"@.is_prefix_of(small) || "%5b"@.is_prefix_of(small)
                || "%22"@.is_prefix_of(small);
            let source = if starts {
                crate::decode::percent_decoded(plain)
            } else {
                Some(plain)
            };
            &&& source is None ==> payload(text, encoded) is None
            &&& source matches Some(source) ==> match json_parsed(source) {
                Err(_) => payload(text, encoded) is None,
                Ok(Json::Text(inner)) => match json_parsed(inner.text@) {
                    Err(_) => payload(text, encoded) is None,
                    Ok(Json::Text(innermost)) => match json_parsed(innermost.text@) {
                        Err(_) => payload(text, encoded) is None,
                        Ok(value) => payload(text, encoded) == Some(value),
                    },
                    Ok(value) => payload(text, encoded) == Some(value),
                },
                Ok(value) => payload(text, encoded) == Some(value),
            }
        }),
{
    reveal_with_fuel(crate::json::taken_out, 3);
}

/// The texts that may be read as numbers are those of the numbers and strings of
/// a document, in the order in which they are written, and each of them has its
/// reading.
pub proof fn numbers_and_texts_are_read_in_order(
    value: Json,
    items: Vec<Json>,
    more: Vec<Json>,
    members: Vec<JsonMember>,
    wider: Vec<JsonMember>,
    last: JsonMember,
)
    ensures
        value matches Json::Number(number) ==> number_texts(value) == seq![number.text@]
            && readings_in(value) == seq![number.reading],
        value matches Json::Text(text) ==> number_texts(value) == seq![text.text@] && readings_in(
            value,
        ) == seq![text.reading],
        value is Null || value is Bool ==> number_texts(value).len() == 0 && readings_in(
            value,
        ).len() == 0,
        items@.len() == 0 ==> number_texts(Json::Array(items)).len() == 0 && readings_in(
            Json::Array(items),
        ).len() == 0,
        members@.len() == 0 ==> number_texts(Json::Object(members)).len() == 0 && readings_in(
            Json::Object(members),
        ).len() == 0,
        more@ == items@.push(value) ==> number_texts(Json::Array(more)) == number_texts(
            Json::Array(items),
        ) + number_texts(value) && readings_in(Json::Array(more)) == readings_in(
            Json::Array(items),
        ) + readings_in(value),
        wider@ == members@.push(last) ==> number_texts(Json::Object(wider)) == number_texts(
            Json::Object(members),
        ) + number_texts(last.value) && readings_in(Json::Object(wider)) == readings_in(
            Json::Object(members),
        ) + readings_in(last.value),
{
    if more@ == items@.push(value) {
        lemma_item_texts(items@, value, items@.len());
    }
    if wider@ == members@.push(last) {
        lemma_member_texts(members@, last, members@.len());
    }
}

proof fn lemma_item_texts(items: Seq<Json>, last: Json, count: nat)
    requires
        count <= items.len(),
    ensures
        item_texts(items.push(last), count) == item_texts(items, count),
        item_readings(items.push(last), count) == item_readings(items, count),
    decreases count,
{
    if count > 0 {
        lemma_item_texts(items, last, (count - 1) as nat);
    }
}

proof fn lemma_member_texts(members: Seq<JsonMember>, last: JsonMember, count: nat)
    requires
        count <= members.len(),
    ensures
        member_texts(members.push(last), count) == member_texts(members, count),
        member_readings(members.push(last), count) == member_readings(members, count),
    decreases count,
{
    if count > 0 {
        lemma_member_texts(members, last, (count - 1) as nat);
    }
}

/// Documents are alike part by part, down to the texts of their strings and the
/// texts and integers of their numbers. Their readings make no difference.
pub proof fn documents_are_alike_in_all_but_readings(first: Json, second: Json)
    ensures
        alike(first, second) ==> number_texts(first) == number_texts(second),
        alike(first, second) ==> match first {
            Json::Null => second is Null,
            Json::Bool(one) => second == Json::Bool(one),
            Json::Number(one) => second matches Json::Number(other) && one.text@ == other.text@
                && one.integer == other.integer,
            Json::Text(one) => second matches Json::Text(other) && one.text@ == other.text@,
            Json::Array(one) => second matches Json::Array(other) && one@.len() == other@.len()
                && forall|i: int| 0 <= i < one@.len() ==> alike(#[trigger] one@[i], other@[i]),
            Json::Object(one) => second matches Json::Object(other) && one@.len() == other@.len()
                && forall|i: int|
                0 <= i < one@.len() ==> (#[trigger] one@[i]).key@ == other@[i].key@ && alike(
                    one@[i].value,
                    other@[i].value,
                ),
        },
    decreases first,
{
    if alike(first, second) {
        match (first, second) {
            (Json::Array(one), Json::Array(other)) => {
                lemma_alike_items(one@, other@, one@.len());
            },
            (Json::Object(one), Json::Object(other)) => {
                lemma_alike_members(one@, other@, one@.len());
            },
            _ => {},
        }
    }
}

proof fn lemma_alike_items(one: Seq<Json>, other: Seq<Json>, count: nat)
    requires
        count <= one.len(),
        one.len() == other.len(),
        forall|i: int| 0 <= i < one.len() ==> alike(#[trigger] one[i], other[i]),
    ensures
        item_texts(one, count) == item_texts(other, count),
    decreases one, count,
{
    if count > 0 {
        lemma_alike_items(one, other, (count - 1) as nat);
        documents_are_alike_in_all_but_readings(one[count - 1], other[count - 1]);
    }
}

proof fn lemma_alike_members(one: Seq<JsonMember>, other: Seq<JsonMember>, count: nat)
    requires
        count <= one.len(),
        one.len() == other.len(),
        forall|i: int|
            0 <= i < one.len() ==> alike((#[trigger] one[i]).value, other[i].value),
    ensures
        member_texts(one, count) == member_texts(other, count),
    decreases one, count,
{
    if count > 0 {
        lemma_alike_members(one, other, (count - 1) as nat);
        documents_are_alike_in_all_but_readings(one[count - 1].value, other[count - 1].value);
    }
}

/// Readings are given one after the other, from a position on; where there are
/// no more, none is given.
pub proof fn readings_are_given_in_order(readings: Seq<Option<Reading>>, from: nat, count: nat)
    ensures
        given(readings, from, count).len() == count,
        forall|k: int|
            0 <= k < count && from + k < readings.len() ==> #[trigger] given(readings, from, count)[k]
                == readings[from + k],
        forall|k: int|
            0 <= k < count && from + k >= readings.len() ==> #[trigger] given(
                readings,
                from,
                count,
            )[k] is None,
        from + count <= readings.len() ==> position_after(readings, from, count) == from + count,
        from + count >= readings.len() ==> position_after(readings, from, count) == readings.len(),
{
}

} // verus!
