//! Media candidates: where they are found, what is known of each, and how they
//! are weighed.
use crate::address::{has_media_ending, has_video_type, media_ending, Directness};
use crate::json::{find_member, member, Json, JsonMember, Reading};
use crate::text::{contains, holds_text, lower, lower_char, same, to_lower};
use crate::weburl::{optional_text, UrlModel, WebUrl};
use vstd::prelude::*;
use vstd::utf8::is_ascii_chars;

verus! {

/// What the place of an address in a document says of it.
#[derive(Debug, Clone, Copy)]
pub struct SourceInfo {
    pub kind: &'static str,
    pub points: i64,
}

/// What a [`SourceInfo`] holds.
pub struct SourceModel {
    pub kind: Seq<char>,
    pub points: int,
}

impl View for SourceInfo {
    type V = SourceModel;

    open spec fn view(&self) -> SourceModel {
        SourceModel { kind: self.kind@, points: self.points as int }
    }
}

pub open spec fn optional_source(info: Option<SourceInfo>) -> Option<SourceModel> {
    match info {
        Some(info) => Some(info@),
        None => None,
    }
}

/// The members that hold media addresses, by their normalized names.
pub open spec fn source_of(key: Seq<char>) -> Option<SourceModel> {
    if key == "playaddrh264"@ {
        Some(SourceModel { kind: "play"@, points: 96 })
    } else if key == "playaddr"@ {
        Some(SourceModel { kind: "play"@, points: 92 })
    } else if key == "playaddrbytevc1"@ {
        Some(SourceModel { kind: "play"@, points: 88 })
    } else if key == "videourl"@ {
        Some(SourceModel { kind: "video-url"@, points: 72 })
    } else if key == "contenturl"@ {
        Some(SourceModel { kind: "video-url"@, points: 70 })
    } else if key == "downloadaddr"@ {
        Some(SourceModel { kind: "download"@, points: 52 })
    } else {
        None
    }
}

/// The members that hold media addresses, by their normalized names.
pub fn source_info(key: &str) -> (info: Option<SourceInfo>)
    ensures
        optional_source(info) == source_of(key@),
{
    if same(key, "playaddrh264") {
        Some(SourceInfo { kind: "play", points: 96 })
    } else if same(key, "playaddr") {
        Some(SourceInfo { kind: "play", points: 92 })
    } else if same(key, "playaddrbytevc1") {
        Some(SourceInfo { kind: "play", points: 88 })
    } else if same(key, "videourl") {
        Some(SourceInfo { kind: "video-url", points: 72 })
    } else if same(key, "contenturl") {
        Some(SourceInfo { kind: "video-url", points: 70 })
    } else if same(key, "downloadaddr") {
        Some(SourceInfo { kind: "download", points: 52 })
    } else {
        None
    }
}

/// The small letters of a character, as Unicode maps them.
pub uninterp spec fn lowercase_chars(character: char) -> Seq<char>;

/// `char::to_lowercase`: the mapping depends on the character alone, and takes
/// an ASCII character to its small letter.
#[verifier::external_body]
fn lowercase(character: char) -> (small: Vec<char>)
    ensures
        small@ == lowercase_chars(character),
        character as u32 <= 0x7f ==> small@ == seq![lower_char(character)],
{
    character.to_lowercase().collect()
}

/// The small letters of a character: that of an ASCII character, or else those
/// that Unicode maps the character to.
pub open spec fn small_chars(character: char) -> Seq<char> {
    if character as u32 <= 0x7f {
        seq![lower_char(character)]
    } else {
        lowercase_chars(character)
    }
}

/// The character is one that members' names are read without.
pub open spec fn is_mark(character: char) -> bool {
    character == '-' || character == '_' || character == '.'
}

/// A member's name without `-`, `_` and `.`, in small letters.
pub open spec fn key_normalized(key: Seq<char>) -> Seq<char>
    decreases key.len(),
{
    if key.len() == 0 {
        Seq::empty()
    } else {
        let before = key_normalized(key.drop_last());
        if is_mark(key.last()) {
            before
        } else {
            before + small_chars(key.last())
        }
    }
}

/// A member's name without `-`, `_` and `.`, in small letters.
pub fn normalized_key(value: &str) -> (key: String)
    ensures
        key@ == key_normalized(value@),
        is_ascii_chars(value@) ==> key@ == lower(
            value@.filter(|character: char| !is_mark(character)),
        ),
{
    let mut key = String::new();
    for character in iter: value.chars()
        invariant
            key@ == key_normalized(value@.take(iter.index())),
            iter.seq() == value@,
    {
        assert(value@.take(iter.index() + 1).drop_last() =~= value@.take(iter.index()));
        if character != '-' && character != '_' && character != '.' {
            let ghost before = key@;
            let small = lowercase(character);
            let mut at: usize = 0;
            assert(key@ =~= before + small@.take(0));
            while at < small.len()
                invariant
                    at <= small@.len(),
                    key@ == before + small@.take(at as int),
                decreases small@.len() - at,
            {
                key.push(small[at]);
                at = at + 1;
                assert(key@ =~= before + small@.take(at as int));
            }
            assert(small@.take(at as int) =~= small@);
        }
    }
    proof {
        assert(value@.take(value@.len() as int) =~= value@);
        if is_ascii_chars(value@) {
            ascii_names_are_normalized(value@);
        }
    }
    key
}

/// The name of an ASCII member is normalized by leaving `-`, `_` and `.` out and
/// taking the small letters of the rest. None of the marks is left, nor a
/// capital, and normalizing the result again changes nothing.
pub proof fn ascii_names_are_normalized(key: Seq<char>)
    requires
        is_ascii_chars(key),
    ensures
        key_normalized(key) == lower(key.filter(|character: char| !is_mark(character))),
        is_ascii_chars(key_normalized(key)),
        forall|i: int|
            0 <= i < key_normalized(key).len() ==> !is_mark(#[trigger] key_normalized(key)[i])
                && !('A' <= key_normalized(key)[i] <= 'Z'),
        key_normalized(key_normalized(key)) == key_normalized(key),
    decreases key.len(),
{
    let keep = |character: char| !is_mark(character);
    reveal(Seq::filter);
    if key.len() == 0 {
        assert(lower(key.filter(keep)) =~= Seq::empty());
    } else {
        let fewer = key.drop_last();
        assert(is_ascii_chars(fewer)) by {
            assert forall|i: int| 0 <= i < fewer.len() implies '\0' <= #[trigger] fewer[i]
                <= '\u{7f}' by {
                assert(key[i] == fewer[i]);
            }
        }
        ascii_names_are_normalized(fewer);
        assert('\0' <= key[key.len() - 1] <= '\u{7f}');
        assert(lower(key.filter(keep)) =~= key_normalized(key));
        if !is_mark(key.last()) {
            let small = lower_char(key.last());
            let before = key_normalized(fewer);
            let after = key_normalized(key);
            assert(after =~= before.push(small));
            assert(after.drop_last() =~= before);
            assert(small_chars(small) =~= seq![small]);
        }
    }
}

/// The name of a member is normalized part by part.
pub proof fn names_are_normalized_in_parts(first: Seq<char>, second: Seq<char>)
    ensures
        key_normalized(first + second) == key_normalized(first) + key_normalized(second),
    decreases second.len(),
{
    if second.len() == 0 {
        assert(first + second =~= first);
        assert(key_normalized(first) + Seq::empty() =~= key_normalized(first));
    } else {
        names_are_normalized_in_parts(first, second.drop_last());
        assert((first + second).drop_last() =~= first + second.drop_last());
        assert((first + second).last() == second.last());
        assert(key_normalized(first + second) =~= key_normalized(first) + key_normalized(second));
    }
}

/// None of the characters is a mark or an ASCII capital.
pub open spec fn are_small(text: Seq<char>) -> bool {
    forall|i: int|
        0 <= i < text.len() ==> !is_mark(#[trigger] text[i]) && !('A' <= text[i] <= 'Z')
}

/// The character is a small letter of the one at a position, which is no mark.
pub open spec fn is_small_of(key: Seq<char>, at: int, small: char) -> bool {
    0 <= at < key.len() && !is_mark(key[at]) && small_chars(key[at]).contains(small)
}

/// In a normalized name there are the small letters of the characters that are
/// no marks, and nothing else. So no mark and no ASCII capital is left, unless
/// Unicode gave one as the small letter of a character outside ASCII.
pub proof fn names_are_normalized_to_small_letters(key: Seq<char>)
    ensures
        forall|small: char|
            key_normalized(key).contains(small) ==> exists|at: int|
                #[trigger] is_small_of(key, at, small),
        (forall|j: int|
            0 <= j < key.len() && key[j] as u32 > 0x7f ==> are_small(
                lowercase_chars(#[trigger] key[j]),
            )) ==> are_small(key_normalized(key)),
    decreases key.len(),
{
    if key.len() > 0 {
        let fewer = key.drop_last();
        let last = key.last();
        names_are_normalized_to_small_letters(fewer);
        let after = key_normalized(key);
        let before = key_normalized(fewer);
        assert forall|small: char| after.contains(small) implies exists|at: int|
            #[trigger] is_small_of(key, at, small) by {
            let i = choose|i: int| 0 <= i < after.len() && after[i] == small;
            if i < before.len() {
                assert(before[i] == small);
                assert(before.contains(small));
                let at = choose|at: int| #[trigger] is_small_of(fewer, at, small);
                assert(is_small_of(fewer, at, small));
                assert(key[at] == fewer[at]);
                assert(is_small_of(key, at, small));
            } else {
                assert(small_chars(last)[i - before.len()] == small);
                assert(is_small_of(key, key.len() - 1, small));
            }
        }
        if forall|j: int|
            0 <= j < key.len() && key[j] as u32 > 0x7f ==> are_small(
                lowercase_chars(#[trigger] key[j]),
            ) {
            assert forall|j: int| 0 <= j < fewer.len() && fewer[j] as u32 > 0x7f implies are_small(
                lowercase_chars(#[trigger] fewer[j]),
            ) by {
                assert(key[j] == fewer[j]);
            }
            assert(key[key.len() - 1] == last);
            if !is_mark(last) {
                assert(are_small(small_chars(last)));
                assert forall|i: int| 0 <= i < after.len() implies !is_mark(#[trigger] after[i])
                    && !('A' <= after[i] <= 'Z') by {
                    if i < before.len() {
                        assert(after[i] == before[i]);
                    } else {
                        assert(small_chars(last)[i - before.len()] == after[i]);
                    }
                }
            }
        }
    }
}

/// The marks in the name of a member make no difference.
pub proof fn marks_make_no_difference(key: Seq<char>)
    ensures
        key_normalized(key) == key_normalized(
            key.filter(|character: char| !is_mark(character)),
        ),
    decreases key.len(),
{
    let keep = |character: char| !is_mark(character);
    reveal(Seq::filter);
    if key.len() > 0 {
        let fewer = key.drop_last();
        marks_make_no_difference(fewer);
        if !is_mark(key.last()) {
            assert(key.filter(keep).drop_last() =~= fewer.filter(keep));
            assert(key.filter(keep).last() == key.last());
        }
    } else {
        assert(key.filter(keep) =~= key);
    }
}

/// What a document says of a video beside its addresses.
pub struct CandidateMetadata {
    pub bitrate: Option<Reading>,
    pub width: Option<Reading>,
    pub height: Option<Reading>,
    pub codec: Option<String>,
    pub format: Option<String>,
}

/// What a [`CandidateMetadata`] holds.
pub struct MetadataModel {
    pub bitrate: Option<Reading>,
    pub width: Option<Reading>,
    pub height: Option<Reading>,
    pub codec: Option<Seq<char>>,
    pub format: Option<Seq<char>>,
}

impl View for CandidateMetadata {
    type V = MetadataModel;

    open spec fn view(&self) -> MetadataModel {
        MetadataModel {
            bitrate: self.bitrate,
            width: self.width,
            height: self.height,
            codec: optional_text(self.codec),
            format: optional_text(self.format),
        }
    }
}

/// Nothing is known.
pub open spec fn no_metadata() -> MetadataModel {
    MetadataModel { bitrate: None, width: None, height: None, codec: None, format: None }
}

impl CandidateMetadata {
    /// Nothing is known.
    pub fn none() -> (metadata: CandidateMetadata)
        ensures
            metadata@ == no_metadata(),
    {
        CandidateMetadata { bitrate: None, width: None, height: None, codec: None, format: None }
    }
}

/// The finite number that a value reads as.
pub open spec fn reading_of(value: Option<Json>) -> Option<Reading> {
    match value {
        Some(Json::Number(number)) => number.reading,
        Some(Json::Text(text)) => text.reading,
        _ => None,
    }
}

/// The finite number that a value reads as.
pub fn finite_number(value: Option<&Json>) -> (reading: Option<Reading>)
    ensures
        reading == reading_of(crate::json::optional_json(value)),
{
    match value {
        Some(Json::Number(number)) => number.reading,
        Some(Json::Text(text)) => text.reading,
        _ => None,
    }
}

pub open spec fn text_of(value: Option<Json>) -> Option<Seq<char>> {
    match value {
        Some(Json::Text(text)) => Some(text.text@),
        _ => None,
    }
}

/// The first of three members that is a string.
pub open spec fn first_text(
    members: Seq<JsonMember>,
    first: Seq<char>,
    second: Seq<char>,
    third: Seq<char>,
) -> Option<Seq<char>> {
    if text_of(member(members, first)) is Some {
        text_of(member(members, first))
    } else if text_of(member(members, second)) is Some {
        text_of(member(members, second))
    } else {
        text_of(member(members, third))
    }
}

/// The member's text, if it is a string.
pub fn member_text(members: &Vec<JsonMember>, key: &str) -> (text: Option<String>)
    ensures
        optional_text(text) == text_of(member(members@, key@)),
{
    match find_member(members, key) {
        Some(Json::Text(text)) => Some(text.text.clone()),
        _ => None,
    }
}

/// The first of three members that is a string.
pub fn first_string(
    members: &Vec<JsonMember>,
    first: &str,
    second: &str,
    third: &str,
) -> (text: Option<String>)
    ensures
        optional_text(text) == first_text(members@, first@, second@, third@),
{
    match member_text(members, first) {
        Some(text) => Some(text),
        None => match member_text(members, second) {
            Some(text) => Some(text),
            None => member_text(members, third),
        },
    }
}

/// The member that holds a bit rate, under the first of its names that is there.
pub open spec fn bitrate_member(members: Seq<JsonMember>) -> Option<Json> {
    if member(members, "bit_rate"@) is Some {
        member(members, "bit_rate"@)
    } else if member(members, "bitrate"@) is Some {
        member(members, "bitrate"@)
    } else {
        member(members, "bitRate"@)
    }
}

/// What an object says of a video beside its addresses.
pub open spec fn metadata_of(members: Seq<JsonMember>) -> MetadataModel {
    MetadataModel {
        bitrate: reading_of(bitrate_member(members)),
        width: reading_of(member(members, "width"@)),
        height: reading_of(member(members, "height"@)),
        codec: first_text(members, "codec_type"@, "codecType"@, "codec"@),
        format: first_text(members, "format"@, "gear_name"@, "gearName"@),
    }
}

/// What an object says of a video beside its addresses.
pub fn metadata_from_record(members: &Vec<JsonMember>) -> (metadata: CandidateMetadata)
    ensures
        metadata@ == metadata_of(members@),
{
    let bitrate = match find_member(members, "bit_rate") {
        Some(value) => Some(value),
        None => match find_member(members, "bitrate") {
            Some(value) => Some(value),
            None => find_member(members, "bitRate"),
        },
    };
    CandidateMetadata {
        bitrate: finite_number(bitrate),
        width: finite_number(find_member(members, "width")),
        height: finite_number(find_member(members, "height")),
        codec: first_string(members, "codec_type", "codecType", "codec"),
        format: first_string(members, "format", "gear_name", "gearName"),
    }
}

/// The number is greater than zero.
pub open spec fn is_positive(reading: Reading) -> bool {
    reading.place > 0
}

/// The number is neither of the zeros.
pub open spec fn is_nonzero(reading: Reading) -> bool {
    reading.place != 0 && reading.place != -1
}

/// The points that count if the condition holds.
pub open spec fn points_if(condition: bool, points: int) -> int {
    if condition {
        points
    } else {
        0
    }
}

/// The points of the address itself.
pub open spec fn address_points(url: UrlModel, directness: Directness) -> int {
    points_if(directness == Directness::CdnMedia, 20) + points_if(
        has_media_ending(lower(url.path)),
        16,
    ) + points_if(has_video_type(url), 14) + points_if(
        holds_text(lower(url.path), "/video/"@),
        10,
    ) - points_if(is_marked(url), 35) - points_if(directness == Directness::Unknown, 20)
}

/// The address is that of a marked playback.
pub open spec fn is_marked(url: UrlModel) -> bool {
    holds_text(lower(url.path), "/playwm/"@) || url.pairs().contains(("watermark"@, "1"@))
}

/// The size of the picture is known.
pub open spec fn has_size(metadata: MetadataModel) -> bool {
    &&& metadata.width is Some && is_nonzero(metadata.width->0)
    &&& metadata.height is Some && is_nonzero(metadata.height->0)
}

/// A candidate's score in hundredths of a point: the points of its source and
/// its address, six points if the size of the picture is known, and what a
/// positive bit rate adds.
pub open spec fn score_of(
    points: int,
    url: UrlModel,
    directness: Directness,
    metadata: MetadataModel,
) -> int {
    100 * (points + address_points(url, directness) + points_if(has_size(metadata), 6)) + (match metadata.bitrate {
        Some(bitrate) => points_if(is_positive(bitrate), bitrate.bonus as int),
        None => 0,
    })
}

fn nonzero(reading: &Option<Reading>) -> (found: bool)
    ensures
        found == (*reading is Some && is_nonzero((*reading)->0)),
{
    match reading {
        Some(reading) => reading.place != 0 && reading.place != -1,
        None => false,
    }
}

fn count_if(condition: bool, points: i64) -> (counted: i64)
    ensures
        counted == points_if(condition, points as int),
{
    if condition {
        points
    } else {
        0
    }
}

fn count_address(url: &WebUrl, directness: Directness) -> (points: i64)
    ensures
        points == address_points(url@, directness),
        -55 <= points <= 60,
{
    let path = to_lower(url.path());
    let file: i64 = count_if(matches!(directness, Directness::CdnMedia), 20);
    let ending: i64 = count_if(media_ending(path.as_str()), 16);
    let typed: i64 = count_if(url.has_pair("mime_type", "video_mp4"), 14);
    let placed: i64 = count_if(contains(path.as_str(), "/video/"), 10);
    let marked: i64 = count_if(
        contains(path.as_str(), "/playwm/") || url.has_pair("watermark", "1"),
        35,
    );
    let unknown: i64 = count_if(matches!(directness, Directness::Unknown), 20);
    file + ending + typed + placed - marked - unknown
}

/// A candidate's score in hundredths of a point; see [`score_of`].
pub fn candidate_score(
    source: SourceInfo,
    url: &WebUrl,
    directness: Directness,
    metadata: &CandidateMetadata,
) -> (score: i64)
    requires
        i64::MIN <= (source.points - 55) * 100,
        (source.points + 66) * 100 + u16::MAX <= i64::MAX,
    ensures
        score == score_of(source@.points, url@, directness, metadata@),
{
    let address: i64 = count_address(url, directness);
    let size: i64 = count_if(nonzero(&metadata.width) && nonzero(&metadata.height), 6);
    let bonus: i64 = match metadata.bitrate {
        Some(bitrate) => count_if(bitrate.place > 0, bitrate.bonus as i64),
        None => 0,
    };
    (source.points + address + size) * 100 + bonus
}

} // verus!
