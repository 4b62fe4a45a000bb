//! The search for the requested video in a document.
use crate::json::{find_member, member, Json, JsonMember};
use crate::text::same;
use vstd::prelude::*;

verus! {

/// How many levels of a document are visited.
pub const MAX_JSON_LEVELS: usize = 65;

/// No further value is visited once more than this many were.
pub const MAX_JSON_NODES: usize = 50_000;

/// What the search has seen.
pub struct Search {
    pub nodes: nat,
    pub roots: Seq<Json>,
    pub identified: bool,
}

/// The member by which an object names its video.
pub open spec fn id_member(members: Seq<JsonMember>) -> Option<Json> {
    if member(members, "aweme_id"@) is Some {
        member(members, "aweme_id"@)
    } else {
        member(members, "awemeId"@)
    }
}

/// The value names the video.
pub open spec fn names_video(value: Json, id: Seq<char>) -> bool {
    match value {
        Json::Text(text) => text.text@ == id,
        Json::Number(number) => number.text@ == id,
        _ => false,
    }
}

/// The object names the video and holds it.
pub open spec fn is_root(node: Json, id: Seq<char>) -> bool {
    match node {
        Json::Object(members) => {
            &&& id_member(members@) matches Some(value) && names_video(value, id)
            &&& member(members@, "video"@) matches Some(Json::Object(_))
        },
        _ => false,
    }
}

/// The search with an object noted.
pub open spec fn noted(node: Json, id: Seq<char>, search: Search) -> Search {
    Search {
        nodes: search.nodes,
        roots: if is_root(node, id) {
            search.roots.push(node)
        } else {
            search.roots
        },
        identified: search.identified || (match node {
            Json::Object(members) => id_member(members@) is Some,
            _ => false,
        }),
    }
}

/// The search after a value of which `levels` levels are visited.
pub open spec fn searched(node: Json, id: Seq<char>, levels: nat, search: Search) -> Search
    decreases levels, 0nat,
{
    if levels == 0 || search.nodes > MAX_JSON_NODES {
        search
    } else {
        let counted = Search { nodes: search.nodes + 1, ..search };
        match node {
            Json::Object(members) => searched_members(
                members@,
                members@.len(),
                id,
                (levels - 1) as nat,
                noted(node, id, counted),
            ),
            Json::Array(items) => searched_items(
                items@,
                items@.len(),
                id,
                (levels - 1) as nat,
                counted,
            ),
            _ => counted,
        }
    }
}

pub open spec fn searched_items(
    items: Seq<Json>,
    count: nat,
    id: Seq<char>,
    levels: nat,
    search: Search,
) -> Search
    decreases levels, count + 1,
{
    if count == 0 {
        search
    } else {
        searched(
            items[count - 1],
            id,
            levels,
            searched_items(items, (count - 1) as nat, id, levels, search),
        )
    }
}

pub open spec fn searched_members(
    members: Seq<JsonMember>,
    count: nat,
    id: Seq<char>,
    levels: nat,
    search: Search,
) -> Search
    decreases levels, count + 1,
{
    if count == 0 {
        search
    } else {
        searched(
            members[count - 1].value,
            id,
            levels,
            searched_members(members, (count - 1) as nat, id, levels, search),
        )
    }
}

/// The objects of a document that name the video and hold it, and whether any
/// object names a video.
pub open spec fn video_search(value: Json, id: Seq<char>) -> Search {
    searched(
        value,
        id,
        MAX_JSON_LEVELS as nat,
        Search { nodes: 0, roots: Seq::empty(), identified: false },
    )
}

struct Finder<'a> {
    nodes: usize,
    roots: Vec<&'a Json>,
    identified: bool,
}

pub open spec fn roots_model(roots: Seq<&Json>) -> Seq<Json> {
    roots.map_values(|root: &Json| *root)
}

impl<'a> View for Finder<'a> {
    type V = Search;

    closed spec fn view(&self) -> Search {
        Search {
            nodes: self.nodes as nat,
            roots: roots_model(self.roots@),
            identified: self.identified,
        }
    }
}

fn video_named(value: &Json, id: &str) -> (named: bool)
    ensures
        named == names_video(*value, id@),
{
    match value {
        Json::Text(text) => same(text.text.as_str(), id),
        Json::Number(number) => same(number.text.as_str(), id),
        _ => false,
    }
}

fn note<'a>(node: &'a Json, members: &'a Vec<JsonMember>, id: &str, finder: &mut Finder<'a>)
    requires
        *node == Json::Object(*members),
    ensures
        final(finder)@ == noted(*node, id@, old(finder)@),
{
    let named = match find_member(members, "aweme_id") {
        Some(value) => Some(value),
        None => find_member(members, "awemeId"),
    };
    if let Some(value) = named {
        finder.identified = true;
        if video_named(value, id) {
            if let Some(Json::Object(_)) = find_member(members, "video") {
                let ghost before = roots_model(finder.roots@);
                finder.roots.push(node);
                assert(roots_model(finder.roots@) =~= before.push(*node));
            }
        }
    }
}

fn search<'a>(node: &'a Json, id: &str, levels: usize, finder: &mut Finder<'a>)
    ensures
        final(finder)@ == searched(*node, id@, levels as nat, old(finder)@),
    decreases levels, 0nat,
{
    if levels == 0 || finder.nodes > MAX_JSON_NODES {
        return;
    }
    finder.nodes = finder.nodes + 1;
    let ghost counted = finder@;
    match node {
        Json::Object(members) => {
            note(node, members, id, finder);
            let ghost start = finder@;
            let mut at: usize = 0;
            while at < members.len()
                invariant
                    at <= members@.len(),
                    levels > 0,
                    finder@ == searched_members(
                        members@,
                        at as nat,
                        id@,
                        (levels - 1) as nat,
                        start,
                    ),
                decreases members@.len() - at,
            {
                search(&members[at].value, id, levels - 1, finder);
                at = at + 1;
            }
        },
        Json::Array(items) => {
            let mut at: usize = 0;
            while at < items.len()
                invariant
                    at <= items@.len(),
                    levels > 0,
                    finder@ == searched_items(
                        items@,
                        at as nat,
                        id@,
                        (levels - 1) as nat,
                        counted,
                    ),
                decreases items@.len() - at,
            {
                search(&items[at], id, levels - 1, finder);
                at = at + 1;
            }
        },
        _ => {},
    }
}

/// The objects of a document that name the video and hold it, and whether any
/// object names a video.
pub fn find_video_roots<'a>(value: &'a Json, video_id: &str) -> (found: (Vec<&'a Json>, bool))
    ensures
        roots_model(found.0@) == video_search(*value, video_id@).roots,
        found.1 == video_search(*value, video_id@).identified,
{
    let mut finder = Finder { nodes: 0, roots: Vec::new(), identified: false };
    assert(roots_model(finder.roots@) =~= Seq::empty());
    search(value, video_id, MAX_JSON_LEVELS, &mut finder);
    (finder.roots, finder.identified)
}

/// The values of a document in the order in which they are written, each before
/// those in it, as far as `levels` levels go.
pub open spec fn values_of(node: Json, levels: nat) -> Seq<Json>
    decreases levels, 0nat,
{
    if levels == 0 {
        Seq::empty()
    } else {
        seq![node] + match node {
            Json::Object(members) => values_of_members(
                members@,
                members@.len(),
                (levels - 1) as nat,
            ),
            Json::Array(items) => values_of_items(items@, items@.len(), (levels - 1) as nat),
            _ => Seq::empty(),
        }
    }
}

pub open spec fn values_of_items(items: Seq<Json>, count: nat, levels: nat) -> Seq<Json>
    decreases levels, count + 1,
{
    if count == 0 {
        Seq::empty()
    } else {
        values_of_items(items, (count - 1) as nat, levels) + values_of(items[count - 1], levels)
    }
}

pub open spec fn values_of_members(members: Seq<JsonMember>, count: nat, levels: nat) -> Seq<Json>
    decreases levels, count + 1,
{
    if count == 0 {
        Seq::empty()
    } else {
        values_of_members(members, (count - 1) as nat, levels) + values_of(
            members[count - 1].value,
            levels,
        )
    }
}

/// Those of the values that are visited after so many others.
pub open spec fn seen_after(values: Seq<Json>, nodes: nat) -> Seq<Json> {
    if nodes + values.len() <= MAX_JSON_NODES + 1 {
        values
    } else {
        values.take(MAX_JSON_NODES + 1 - nodes)
    }
}

/// The value is an object that names a video.
pub open spec fn names_some_video(node: Json) -> bool {
    match node {
        Json::Object(members) => id_member(members@) is Some,
        _ => false,
    }
}

/// One of the values is an object that names a video.
pub open spec fn some_name_videos(values: Seq<Json>) -> bool {
    exists|i: int| 0 <= i < values.len() && #[trigger] names_some_video(values[i])
}

/// The search after these values.
spec fn search_after(values: Seq<Json>, id: Seq<char>, search: Search) -> Search {
    let seen = seen_after(values, search.nodes);
    Search {
        nodes: search.nodes + seen.len(),
        roots: search.roots + seen.filter(|node: Json| is_root(node, id)),
        identified: search.identified || some_name_videos(seen),
    }
}

/// Searching one part after the other is searching the whole.
proof fn lemma_search_after(
    first: Seq<Json>,
    second: Seq<Json>,
    id: Seq<char>,
    search: Search,
)
    requires
        search.nodes <= MAX_JSON_NODES + 1,
    ensures
        search_after(first, id, search).nodes <= MAX_JSON_NODES + 1,
        search_after(second, id, search_after(first, id, search)) == search_after(
            first + second,
            id,
            search,
        ),
{
    let keep = |node: Json| is_root(node, id);
    let between = search_after(first, id, search);
    let left = seen_after(first, search.nodes);
    let right = seen_after(second, between.nodes);
    let whole = seen_after(first + second, search.nodes);
    assert(whole =~= left + right);
    Seq::filter_distributes_over_add(left, right, keep);
    assert(search.roots + left.filter(keep) + right.filter(keep) =~= search.roots + whole.filter(
        keep,
    ));
    if some_name_videos(left) {
        let i = choose|i: int| 0 <= i < left.len() && #[trigger] names_some_video(left[i]);
        assert(names_some_video(whole[i]));
    }
    if some_name_videos(right) {
        let i = choose|i: int| 0 <= i < right.len() && #[trigger] names_some_video(right[i]);
        assert(names_some_video(whole[left.len() + i]));
    }
    if some_name_videos(whole) {
        let i = choose|i: int| 0 <= i < whole.len() && #[trigger] names_some_video(whole[i]);
        if i < left.len() {
            assert(names_some_video(left[i]));
        } else {
            assert(names_some_video(right[i - left.len()]));
        }
    }
}

/// Searching nothing changes nothing.
proof fn lemma_search_nothing(id: Seq<char>, search: Search)
    requires
        search.nodes <= MAX_JSON_NODES + 1,
    ensures
        search_after(Seq::empty(), id, search) == search,
{
    let keep = |node: Json| is_root(node, id);
    reveal(Seq::filter);
    let seen = seen_after(Seq::empty(), search.nodes);
    assert(seen =~= Seq::empty());
    assert(search.roots + seen.filter(keep) =~= search.roots);
}

/// Searching one value counts it, and notes it if it is an object.
proof fn lemma_search_one(node: Json, id: Seq<char>, search: Search)
    requires
        search.nodes <= MAX_JSON_NODES,
    ensures
        search_after(seq![node], id, search) == noted(
            node,
            id,
            Search { nodes: search.nodes + 1, ..search },
        ),
{
    let keep = |node: Json| is_root(node, id);
    reveal(Seq::filter);
    let one = seq![node];
    assert(one.drop_last() =~= Seq::empty());
    assert(one.drop_last().filter(keep) =~= Seq::empty());
    assert(search.roots + one.filter(keep) =~= if is_root(node, id) {
        search.roots.push(node)
    } else {
        search.roots
    });
    assert(names_some_video(one[0]) == some_name_videos(one));
}

proof fn lemma_searched_values(node: Json, id: Seq<char>, levels: nat, search: Search)
    requires
        search.nodes <= MAX_JSON_NODES + 1,
    ensures
        searched(node, id, levels, search) == search_after(values_of(node, levels), id, search),
    decreases levels, 0nat,
{
    if levels == 0 {
        lemma_search_nothing(id, search);
    } else if search.nodes > MAX_JSON_NODES {
        lemma_search_nothing(id, search);
        assert(seen_after(values_of(node, levels), search.nodes) =~= Seq::empty());
        assert(seen_after(Seq::empty(), search.nodes) =~= Seq::empty());
    } else {
        lemma_search_one(node, id, search);
        let after = search_after(seq![node], id, search);
        match node {
            Json::Object(members) => {
                lemma_search_after(
                    seq![node],
                    values_of_members(members@, members@.len(), (levels - 1) as nat),
                    id,
                    search,
                );
                lemma_searched_member_values(
                    members@,
                    members@.len(),
                    id,
                    (levels - 1) as nat,
                    after,
                );
            },
            Json::Array(items) => {
                lemma_search_after(
                    seq![node],
                    values_of_items(items@, items@.len(), (levels - 1) as nat),
                    id,
                    search,
                );
                lemma_searched_item_values(items@, items@.len(), id, (levels - 1) as nat, after);
            },
            _ => {
                assert(seq![node] + Seq::empty() =~= seq![node]);
            },
        }
    }
}

proof fn lemma_searched_item_values(
    items: Seq<Json>,
    count: nat,
    id: Seq<char>,
    levels: nat,
    search: Search,
)
    requires
        search.nodes <= MAX_JSON_NODES + 1,
    ensures
        searched_items(items, count, id, levels, search) == search_after(
            values_of_items(items, count, levels),
            id,
            search,
        ),
    decreases levels, count + 1,
{
    if count == 0 {
        lemma_search_nothing(id, search);
    } else {
        let before = values_of_items(items, (count - 1) as nat, levels);
        lemma_searched_item_values(items, (count - 1) as nat, id, levels, search);
        lemma_search_after(before, values_of(items[count - 1], levels), id, search);
        lemma_searched_values(
            items[count - 1],
            id,
            levels,
            search_after(before, id, search),
        );
    }
}

proof fn lemma_searched_member_values(
    members: Seq<JsonMember>,
    count: nat,
    id: Seq<char>,
    levels: nat,
    search: Search,
)
    requires
        search.nodes <= MAX_JSON_NODES + 1,
    ensures
        searched_members(members, count, id, levels, search) == search_after(
            values_of_members(members, count, levels),
            id,
            search,
        ),
    decreases levels, count + 1,
{
    if count == 0 {
        lemma_search_nothing(id, search);
    } else {
        let before = values_of_members(members, (count - 1) as nat, levels);
        lemma_searched_member_values(members, (count - 1) as nat, id, levels, search);
        lemma_search_after(before, values_of(members[count - 1].value, levels), id, search);
        lemma_searched_values(
            members[count - 1].value,
            id,
            levels,
            search_after(before, id, search),
        );
    }
}

/// The search finds, in their order, just those objects that name the video and
/// hold it among the values that are visited. These are all values within the
/// limit on levels, or the first of them if they are more than are visited.
pub proof fn roots_are_found_in_order(value: Json, id: Seq<char>)
    ensures
        ({
            let seen = seen_after(values_of(value, MAX_JSON_LEVELS as nat), 0);
            let search = video_search(value, id);
            &&& search.roots == seen.filter(|node: Json| is_root(node, id))
            &&& search.nodes == seen.len()
            &&& search.identified == some_name_videos(seen)
        }),
{
    let search = Search { nodes: 0, roots: Seq::empty(), identified: false };
    let seen = seen_after(values_of(value, MAX_JSON_LEVELS as nat), 0);
    let keep = |node: Json| is_root(node, id);
    lemma_searched_values(value, id, MAX_JSON_LEVELS as nat, search);
    assert(search.roots + seen.filter(keep) =~= seen.filter(keep));
}

} // verus!
