//! HTML elements: their attributes, and the documents inside scripts.
use crate::json::{parse_json_payload, payload, Json, Reading};
use crate::patterns::{
    find_all, group, group_at, group_or_empty, group_text, groups_model, matches_model,
    regex_matches, texts_model, Groups,
};
use crate::readings::{
    alike, alike_is_reflexive, alike_is_transitive, alike_payloads, collect_number_texts, given,
    give_readings, lemma_given, number_texts, position_after, readings_in,
};
use crate::script::{balanced_json, balanced_json_after_assignment};
use crate::text::{lower, owned, same, to_lower, trim, trimmed};
use crate::weburl::optional_text;
use vstd::prelude::*;

verus! {

/// The pattern of an attribute: its name, and its value in double quotes, in
/// single quotes or bare.
pub const ATTRIBUTE_PATTERN: &'static str =
    r#"([^\s=/>]+)(?:\s*=\s*(?:"([^"]*)"|'([^']*)'|([^\s"'=<>`]+)))?"#;

/// The pattern of a script: its attributes and its body.
pub const SCRIPT_PATTERN: &'static str = r"(?is)<script\b([^>]*)>(.*?)</script\s*>";

/// An attribute, its name in small letters.
pub struct Attribute {
    pub name: String,
    pub value: String,
}

pub open spec fn attributes_model(attributes: Seq<Attribute>) -> Seq<(Seq<char>, Seq<char>)> {
    attributes.map_values(|attribute: Attribute| (attribute.name@, attribute.value@))
}

/// The value of an attribute: the group that took part, or nothing.
pub open spec fn attribute_value(groups: Seq<Option<Seq<char>>>) -> Seq<char> {
    if group_at(groups, 2) is Some {
        group_text(groups, 2)
    } else if group_at(groups, 3) is Some {
        group_text(groups, 3)
    } else {
        group_text(groups, 4)
    }
}

/// The attributes that the first `count` matches make.
pub open spec fn attributes_of(found: Seq<Seq<Option<Seq<char>>>>, count: nat) -> Seq<
    (Seq<char>, Seq<char>),
>
    decreases count,
{
    if count == 0 {
        Seq::empty()
    } else {
        let before = attributes_of(found, (count - 1) as nat);
        match group_at(found[count - 1], 1) {
            Some(name) => before.push((lower(name), attribute_value(found[count - 1]))),
            None => before,
        }
    }
}

/// The attributes in the text of a tag.
pub open spec fn attributes_in(source: Seq<char>) -> Seq<(Seq<char>, Seq<char>)> {
    attributes_of(
        regex_matches(ATTRIBUTE_PATTERN@, source),
        regex_matches(ATTRIBUTE_PATTERN@, source).len(),
    )
}

/// The value of the attribute with this name; the last one counts.
pub open spec fn attribute(attributes: Seq<(Seq<char>, Seq<char>)>, name: Seq<char>) -> Option<
    Seq<char>,
>
    decreases attributes.len(),
{
    if attributes.len() == 0 {
        None
    } else if attributes.last().0 == name {
        Some(attributes.last().1)
    } else {
        attribute(attributes.drop_last(), name)
    }
}

/// The attributes that the matches make.
pub fn attributes_of_matches(found: &Vec<Groups>) -> (attributes: Vec<Attribute>)
    ensures
        attributes_model(attributes@) == attributes_of(matches_model(found@), found@.len()),
{
    let mut attributes: Vec<Attribute> = Vec::new();
    let mut at: usize = 0;
    assert(attributes_model(attributes@) =~= Seq::empty());
    while at < found.len()
        invariant
            at <= found@.len(),
            attributes_model(attributes@) == attributes_of(matches_model(found@), at as nat),
        decreases found@.len() - at,
    {
        let groups = &found[at];
        assert(matches_model(found@)[at as int] == groups_model(groups@));
        let ghost before = attributes_model(attributes@);
        if let Some(name) = group(groups, 1) {
            let value = match group(groups, 2) {
                Some(value) => value,
                None => match group(groups, 3) {
                    Some(value) => value,
                    None => group_or_empty(groups, 4),
                },
            };
            attributes.push(Attribute { name: to_lower(name.as_str()), value });
            assert(attributes_model(attributes@) =~= before.push(
                (lower(name@), attribute_value(groups_model(groups@))),
            ));
        }
        at = at + 1;
    }
    attributes
}

/// The attributes in the text of a tag.
pub fn parse_attributes(source: &str) -> (attributes: Vec<Attribute>)
    ensures
        attributes_model(attributes@) == attributes_in(source@),
{
    let found = find_all(ATTRIBUTE_PATTERN, source);
    attributes_of_matches(&found)
}

/// The value of the attribute with this name; the last one counts.
pub fn find_attribute(attributes: &Vec<Attribute>, name: &str) -> (value: Option<String>)
    ensures
        optional_text(value) == attribute(attributes_model(attributes@), name@),
{
    let mut to: usize = attributes.len();
    let ghost model = attributes_model(attributes@);
    assert(model.take(to as int) =~= model);
    while to > 0
        invariant
            to <= attributes@.len(),
            model == attributes_model(attributes@),
            attribute(model.take(to as int), name@) == attribute(model, name@),
        decreases to,
    {
        assert(model.take(to as int).drop_last() =~= model.take(to - 1));
        assert(model.take(to as int).last() == model[to - 1]);
        if same(attributes[to - 1].name.as_str(), name) {
            return Some(attributes[to - 1].value.clone());
        }
        to = to - 1;
    }
    None
}

/// A document found in a page, and where it was found.
pub struct Payload {
    pub source: String,
    pub value: Json,
}

pub open spec fn payload_model(found: Payload) -> (Seq<char>, Json) {
    (found.source@, found.value)
}

pub open spec fn payloads_model(payloads: Seq<Payload>) -> Seq<(Seq<char>, Json)> {
    payloads.map_values(|found: Payload| payload_model(found))
}

pub open spec fn optional_payload(found: Option<Payload>) -> Option<(Seq<char>, Json)> {
    match found {
        Some(found) => Some(payload_model(found)),
        None => None,
    }
}

/// The document that a script assigns to `marker`.
pub open spec fn assigned_payload(body: Seq<char>, marker: Seq<char>) -> Option<
    (Seq<char>, Json),
> {
    match balanced_json(body, marker) {
        None => None,
        Some(json) => match payload(json, false) {
            Some(value) => Some((marker, value)),
            None => None,
        },
    }
}

/// The document that a script assigns to the first of the known variables that
/// it assigns one to.
pub open spec fn known_payload(body: Seq<char>) -> Option<(Seq<char>, Json)> {
    let router = assigned_payload(body, "window._ROUTER_DATA"@);
    let server = assigned_payload(body, "window._SSR_DATA"@);
    let next = assigned_payload(body, "window.__NEXT_DATA__"@);
    let universal = assigned_payload(body, "window.__UNIVERSAL_DATA_FOR_REHYDRATION__"@);
    if router is Some {
        router
    } else if server is Some {
        server
    } else if next is Some {
        next
    } else {
        universal
    }
}

pub open spec fn lower_optional(text: Option<Seq<char>>) -> Option<Seq<char>> {
    match text {
        Some(text) => Some(lower(text)),
        None => None,
    }
}

/// The script is named as one that holds percent-encoded data.
pub open spec fn is_render_data(id: Option<Seq<char>>) -> bool {
    lower_optional(id) == Some("render_data"@) || lower_optional(id) == Some("render-data"@)
}

/// The script is typed as a document.
pub open spec fn is_json_type(content_type: Option<Seq<char>>) -> bool {
    lower_optional(content_type) == Some("application/json"@) || lower_optional(content_type)
        == Some("application/ld+json"@)
}

/// The document in a script, given its attributes and its trimmed body: one
/// that the body assigns to a known variable, or else the body itself, for a
/// script named or typed as holding one.
pub open spec fn script_payload(
    attributes: Seq<(Seq<char>, Seq<char>)>,
    body: Seq<char>,
) -> Option<(Seq<char>, Json)> {
    let id = attribute(attributes, "id"@);
    let content_type = attribute(attributes, "type"@);
    if body.len() == 0 {
        None
    } else if known_payload(body) is Some {
        known_payload(body)
    } else if is_render_data(id) && payload(body, true) is Some {
        Some((id->0, payload(body, true)->0))
    } else if is_json_type(content_type) && payload(body, false) is Some {
        Some(
            (
                match id {
                    Some(id) => id,
                    None => lower(content_type->0),
                },
                payload(body, false)->0,
            ),
        )
    } else {
        None
    }
}

/// The documents in the first `count` scripts.
pub open spec fn payloads_of(found: Seq<Seq<Option<Seq<char>>>>, count: nat) -> Seq<
    (Seq<char>, Json),
>
    decreases count,
{
    if count == 0 {
        Seq::empty()
    } else {
        let before = payloads_of(found, (count - 1) as nat);
        let groups = found[count - 1];
        match script_payload(attributes_in(group_text(groups, 1)), trimmed(group_text(groups, 2))) {
            Some(found) => before.push(found),
            None => before,
        }
    }
}

/// The scripts of a page, as the pattern finds them.
pub open spec fn scripts_in(html: Seq<char>) -> Seq<Seq<Option<Seq<char>>>> {
    regex_matches(SCRIPT_PATTERN@, html)
}

/// The documents in the scripts of a page.
pub open spec fn page_payloads(html: Seq<char>) -> Seq<(Seq<char>, Json)> {
    payloads_of(scripts_in(html), scripts_in(html).len())
}

fn find_assigned(body: &str, marker: &str) -> (found: Option<Payload>)
    ensures
        optional_payload(found) == assigned_payload(body@, marker@),
{
    match balanced_json_after_assignment(body, marker) {
        None => None,
        Some(json) => match parse_json_payload(json.as_str(), false) {
            Some(value) => Some(Payload { source: owned(marker), value }),
            None => None,
        },
    }
}

fn find_known(body: &str) -> (found: Option<Payload>)
    ensures
        optional_payload(found) == known_payload(body@),
{
    match find_assigned(body, "window._ROUTER_DATA") {
        Some(found) => Some(found),
        None => match find_assigned(body, "window._SSR_DATA") {
            Some(found) => Some(found),
            None => match find_assigned(body, "window.__NEXT_DATA__") {
                Some(found) => Some(found),
                None => find_assigned(body, "window.__UNIVERSAL_DATA_FOR_REHYDRATION__"),
            },
        },
    }
}

fn is_one_of(text: &Option<String>, first: &str, second: &str) -> (found: bool)
    ensures
        found == (lower_optional(optional_text(*text)) == Some(first@) || lower_optional(
            optional_text(*text),
        ) == Some(second@)),
{
    match text {
        Some(text) => {
            let small = to_lower(text.as_str());
            same(small.as_str(), first) || same(small.as_str(), second)
        },
        None => false,
    }
}

/// The document in a script, given its attributes and its trimmed body.
pub fn find_script_payload(attributes: &Vec<Attribute>, body: &str) -> (found: Option<Payload>)
    ensures
        optional_payload(found) == script_payload(attributes_model(attributes@), body@),
{
    if body.is_empty() {
        return None;
    }
    if let Some(found) = find_known(body) {
        return Some(found);
    }
    let id = find_attribute(attributes, "id");
    let content_type = find_attribute(attributes, "type");
    if is_one_of(&id, "render_data", "render-data") {
        if let Some(value) = parse_json_payload(body, true) {
            let source = match id {
                Some(id) => id,
                None => String::new(),
            };
            return Some(Payload { source, value });
        }
    }
    if is_one_of(&content_type, "application/json", "application/ld+json") {
        if let Some(value) = parse_json_payload(body, false) {
            let source = match id {
                Some(id) => id,
                None => match content_type {
                    Some(text) => to_lower(text.as_str()),
                    None => String::new(),
                },
            };
            return Some(Payload { source, value });
        }
    }
    None
}

/// The documents in the scripts that the pattern found.
pub fn payloads_of_matches(found: &Vec<Groups>) -> (payloads: Vec<Payload>)
    ensures
        payloads_model(payloads@) == payloads_of(matches_model(found@), found@.len()),
{
    let mut payloads: Vec<Payload> = Vec::new();
    let mut at: usize = 0;
    assert(payloads_model(payloads@) =~= Seq::empty());
    while at < found.len()
        invariant
            at <= found@.len(),
            payloads_model(payloads@) == payloads_of(matches_model(found@), at as nat),
        decreases found@.len() - at,
    {
        let groups = &found[at];
        assert(matches_model(found@)[at as int] == groups_model(groups@));
        let ghost before = payloads_model(payloads@);
        let tag = group_or_empty(groups, 1);
        let content = group_or_empty(groups, 2);
        let attributes = parse_attributes(tag.as_str());
        let body = trim(content.as_str());
        if let Some(payload) = find_script_payload(&attributes, body.as_str()) {
            let ghost model = payload_model(payload);
            payloads.push(payload);
            assert(payloads_model(payloads@) =~= before.push(model));
        }
        at = at + 1;
    }
    payloads
}

/// A page: its text, the documents in its scripts, and the number of its
/// scripts. The numbers in the documents may have been read.
pub struct Page {
    html: String,
    payloads: Vec<Payload>,
    scripts: usize,
}

/// What a [`Page`] holds. Its scripts are those in its text.
pub struct PageModel {
    pub html: Seq<char>,
    pub payloads: Seq<(Seq<char>, Json)>,
}

impl View for Page {
    type V = PageModel;

    closed spec fn view(&self) -> PageModel {
        PageModel { html: self.html@, payloads: payloads_model(self.payloads@) }
    }
}

impl PageModel {
    /// The documents are those in the page's scripts, but for readings.
    pub open spec fn is_read(self) -> bool {
        alike_payloads(self.payloads, page_payloads(self.html))
    }
}

/// The texts of the first `count` documents that may be read as numbers.
pub open spec fn payload_texts(payloads: Seq<(Seq<char>, Json)>, count: nat) -> Seq<Seq<char>>
    decreases count,
{
    if count == 0 {
        Seq::empty()
    } else {
        payload_texts(payloads, (count - 1) as nat) + number_texts(payloads[count - 1].1)
    }
}

/// The readings of the first `count` documents.
pub open spec fn payload_readings(payloads: Seq<(Seq<char>, Json)>, count: nat) -> Seq<
    Option<Reading>,
>
    decreases count,
{
    if count == 0 {
        Seq::empty()
    } else {
        payload_readings(payloads, (count - 1) as nat) + readings_in(payloads[count - 1].1)
    }
}

/// The readings of the first documents do not depend on those after them.
proof fn lemma_payload_prefix(
    fewer: Seq<(Seq<char>, Json)>,
    more: Seq<(Seq<char>, Json)>,
    count: nat,
)
    requires
        count <= fewer.len(),
        fewer.is_prefix_of(more),
    ensures
        payload_readings(fewer, count) == payload_readings(more, count),
    decreases count,
{
    if count > 0 {
        lemma_payload_prefix(fewer, more, (count - 1) as nat);
        assert(fewer[count - 1] == more[count - 1]);
    }
}

impl Page {
    #[verifier::type_invariant]
    spec fn keeps_documents(self) -> bool {
        &&& alike_payloads(payloads_model(self.payloads@), page_payloads(self.html@))
        &&& self.scripts == scripts_in(self.html@).len()
    }

    pub fn html(&self) -> (html: &str)
        ensures
            html@ == self@.html,
    {
        self.html.as_str()
    }

    /// The documents in the page's scripts.
    pub fn payloads(&self) -> (payloads: &Vec<Payload>)
        ensures
            payloads_model(payloads@) == self@.payloads,
            self@.is_read(),
    {
        proof {
            use_type_invariant(self);
        }
        &self.payloads
    }

    /// The number of the page's scripts.
    pub fn scripts(&self) -> (scripts: usize)
        ensures
            scripts == scripts_in(self@.html).len(),
    {
        proof {
            use_type_invariant(self);
        }
        self.scripts
    }

    /// The texts of the page's documents that may be read as numbers, in order.
    pub fn number_texts(&self) -> (texts: Vec<String>)
        ensures
            texts_model(texts@) == payload_texts(self@.payloads, self@.payloads.len()),
    {
        let mut texts: Vec<String> = Vec::new();
        let mut at: usize = 0;
        let ghost model = payloads_model(self.payloads@);
        assert(texts_model(texts@) =~= Seq::empty());
        while at < self.payloads.len()
            invariant
                at <= self.payloads@.len(),
                model == payloads_model(self.payloads@),
                texts_model(texts@) == payload_texts(model, at as nat),
            decreases self.payloads@.len() - at,
        {
            assert(model[at as int] == payload_model(self.payloads@[at as int]));
            collect_number_texts(&self.payloads[at].value, &mut texts);
            at = at + 1;
        }
        assert(model.len() == self.payloads@.len());
        texts
    }

    /// The page with readings given to the numbers and strings of its documents,
    /// in order. Nothing but the readings changes.
    pub fn with_readings(self, readings: &Vec<Option<Reading>>) -> (page: Page)
        ensures
            page@.html == self@.html,
            alike_payloads(page@.payloads, self@.payloads),
            payload_readings(page@.payloads, page@.payloads.len()) == given(
                readings@,
                0,
                payload_texts(self@.payloads, self@.payloads.len()).len(),
            ),
            page@.is_read(),
    {
        proof {
            use_type_invariant(&self);
        }
        let ghost model = payloads_model(self.payloads@);
        let ghost found = page_payloads(self.html@);
        let Page { html, payloads, scripts } = self;
        let mut read: Vec<Payload> = Vec::new();
        let mut at: usize = 0;
        proof {
            assert(payloads_model(read@) =~= Seq::empty());
            assert(given(readings@, 0, 0) =~= Seq::empty());
        }
        for payload in iter: payloads
            invariant
                iter.seq() == payloads@,
                model == payloads_model(payloads@),
                at <= readings@.len(),
                read@.len() == iter.index(),
                forall|i: int|
                    0 <= i < read@.len() ==> (#[trigger] payloads_model(read@)[i]).0 == model[i].0
                        && alike(payloads_model(read@)[i].1, model[i].1),
                payload_readings(payloads_model(read@), read@.len()) == given(
                    readings@,
                    0,
                    payload_texts(model, iter.index() as nat).len(),
                ),
                at == position_after(
                    readings@,
                    0,
                    payload_texts(model, iter.index() as nat).len(),
                ),
        {
            let ghost before = payloads_model(read@);
            let ghost count = iter.index() as nat;
            assert(model[count as int] == payload_model(payload));
            let Payload { source, value } = payload;
            proof {
                lemma_given(
                    readings@,
                    0,
                    payload_texts(model, count).len(),
                    number_texts(value).len(),
                );
            }
            let next = give_readings(value, readings, at);
            at = next.1;
            read.push(Payload { source, value: next.0 });
            proof {
                let after = payloads_model(read@);
                assert(after =~= before.push((model[count as int].0, next.0)));
                lemma_payload_prefix(before, after, count);
                assert forall|i: int| 0 <= i < read@.len() implies (#[trigger] after[i]).0
                    == model[i].0 && alike(after[i].1, model[i].1) by {
                    if i < count {
                        assert(after[i] == before[i]);
                    }
                }
            }
        }
        proof {
            let after = payloads_model(read@);
            assert(after.len() == model.len());
            assert forall|i: int| 0 <= i < after.len() implies (#[trigger] after[i]).0 == found[i].0
                && alike(after[i].1, found[i].1) by {
                assert(model[i].0 == found[i].0);
                alike_is_transitive(after[i].1, model[i].1, found[i].1);
            }
        }
        Page { html, payloads: read, scripts }
    }
}

/// A page, given its text, with the documents in its scripts as they stand.
pub fn collect_structured_payloads(html: &str) -> (page: Page)
    ensures
        page@ == (PageModel { html: html@, payloads: page_payloads(html@) }),
{
    let found = find_all(SCRIPT_PATTERN, html);
    let payloads = payloads_of_matches(&found);
    proof {
        assert(matches_model(found@).len() == found@.len());
        let model = payloads_model(payloads@);
        assert forall|i: int| 0 <= i < model.len() implies (#[trigger] model[i]).0 == model[i].0
            && alike(model[i].1, model[i].1) by {
            alike_is_reflexive(model[i].1);
        }
    }
    Page { html: owned(html), payloads, scripts: found.len() }
}

} // verus!
