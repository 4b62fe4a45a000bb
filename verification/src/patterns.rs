//! Searches with regular expressions, which the `regex` crate carries out.
//! What a pattern matches in a text is named here and taken apart elsewhere.
use crate::weburl::{clone_optional, optional_text};
use vstd::prelude::*;

verus! {

/// The texts of a match's groups: the whole match, then each group of the
/// pattern, `None` where it took no part.
pub type Groups = Vec<Option<String>>;

pub open spec fn groups_model(groups: Seq<Option<String>>) -> Seq<Option<Seq<char>>> {
    groups.map_values(|group: Option<String>| optional_text(group))
}

pub open spec fn matches_model(found: Seq<Groups>) -> Seq<Seq<Option<Seq<char>>>> {
    found.map_values(|groups: Groups| groups_model(groups@))
}

pub open spec fn texts_model(texts: Seq<String>) -> Seq<Seq<char>> {
    texts.map_values(|text: String| text@)
}

/// The text of a group; empty where there is no such group or it took no part.
pub open spec fn group_text(groups: Seq<Option<Seq<char>>>, index: int) -> Seq<char> {
    match group_at(groups, index) {
        Some(text) => text,
        None => Seq::empty(),
    }
}

pub open spec fn group_at(groups: Seq<Option<Seq<char>>>, index: int) -> Option<Seq<char>> {
    if 0 <= index < groups.len() {
        groups[index]
    } else {
        None
    }
}

/// The groups of each match that `regex::Regex::captures_iter` finds, in order.
pub uninterp spec fn regex_matches(pattern: Seq<char>, text: Seq<char>) -> Seq<
    Seq<Option<Seq<char>>>,
>;

/// `regex::Regex::captures_iter`: the groups of each match, in order. A
/// pattern that is no regular expression matches nothing.
#[verifier::external_body]
pub(crate) fn find_all(pattern: &str, text: &str) -> (found: Vec<Groups>)
    ensures
        matches_model(found@) == regex_matches(pattern@, text@),
{
    let Ok(regex) = regex::Regex::new(pattern) else {
        return Vec::new();
    };
    regex.captures_iter(text).map(|captures| {
        captures.iter().map(|group| group.map(|group| group.as_str().to_string())).collect()
    }).collect()
}

/// The text of a group, if the group is there and took part.
pub fn group(groups: &Groups, index: usize) -> (text: Option<String>)
    ensures
        optional_text(text) == group_at(groups_model(groups@), index as int),
{
    if index < groups.len() {
        clone_optional(&groups[index])
    } else {
        None
    }
}

/// The text of a group; empty where there is no such group or it took no part.
pub fn group_or_empty(groups: &Groups, index: usize) -> (text: String)
    ensures
        text@ == group_text(groups_model(groups@), index as int),
{
    match group(groups, index) {
        Some(text) => text,
        None => String::new(),
    }
}

} // verus!
