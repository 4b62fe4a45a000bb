//! The title and the images of a post.
use crate::address::{image_url, normalize_image_url};
use crate::candidates::{member_text, text_of};
use crate::json::{address_texts, extract_address_urls, find_member, member, Json, JsonMember};
use crate::patterns::texts_model;
use crate::roots::MAX_JSON_LEVELS;
use crate::text::{same, trim, trimmed};
use crate::weburl::optional_text;
use vstd::prelude::*;

verus! {

/// No further value is visited once there are this many images.
pub const MAX_IMAGES: usize = 50;

/// An image of a post, and its place among them.
#[derive(Debug, Clone, PartialEq, Eq)]
pub struct ShareImage {
    pub url: String,
    pub index: usize,
}

/// What a [`ShareImage`] holds.
pub struct ImageModel {
    pub url: Seq<char>,
    pub index: nat,
}

impl View for ShareImage {
    type V = ImageModel;

    open spec fn view(&self) -> ImageModel {
        ImageModel { url: self.url@, index: self.index as nat }
    }
}

pub open spec fn images_model(images: Seq<ShareImage>) -> Seq<ImageModel> {
    images.map_values(|image: ShareImage| image@)
}

/// The title and the images found so far.
#[verifier::ext_equal]
pub struct PostModel {
    pub title: Option<Seq<char>>,
    pub images: Seq<ImageModel>,
}

/// The title and the images of a post.
pub struct Post {
    pub title: Option<String>,
    pub images: Vec<ShareImage>,
}

impl View for Post {
    type V = PostModel;

    open spec fn view(&self) -> PostModel {
        PostModel { title: optional_text(self.title), images: images_model(self.images@) }
    }
}

impl Post {
    /// Neither title nor images.
    pub fn new() -> (post: Post)
        ensures
            post@ == (PostModel { title: None, images: Seq::empty() }),
    {
        let post = Post { title: None, images: Vec::new() };
        assert(images_model(post.images@) =~= Seq::empty());
        post
    }
}

/// The text of a member without white space around it, if any is left.
pub open spec fn title_in(members: Seq<JsonMember>, key: Seq<char>) -> Option<Seq<char>> {
    match text_of(member(members, key)) {
        Some(text) => if trimmed(text).len() > 0 {
            Some(trimmed(text))
        } else {
            None
        },
        None => None,
    }
}

/// The title that an object gives.
pub open spec fn title_of(members: Seq<JsonMember>) -> Option<Seq<char>> {
    if title_in(members, "desc"@) is Some {
        title_in(members, "desc"@)
    } else if title_in(members, "description"@) is Some {
        title_in(members, "description"@)
    } else {
        title_in(members, "title"@)
    }
}

/// One of the images has this address.
pub open spec fn has_image(images: Seq<ImageModel>, url: Seq<char>) -> bool {
    exists|i: int| 0 <= i < images.len() && #[trigger] images[i].url == url
}

/// The images with the one at an address, if it is one that is not there yet.
pub open spec fn with_image(images: Seq<ImageModel>, address: Seq<char>) -> Seq<ImageModel> {
    match image_url(address) {
        Some(url) => if has_image(images, url.text()) {
            images
        } else {
            images.push(ImageModel { url: url.text(), index: images.len() })
        },
        None => images,
    }
}

/// The images with those at the first `count` addresses.
pub open spec fn with_images(
    images: Seq<ImageModel>,
    addresses: Seq<Seq<char>>,
    count: nat,
) -> Seq<ImageModel>
    decreases count,
{
    if count == 0 {
        images
    } else {
        with_image(with_images(images, addresses, (count - 1) as nat), addresses[count - 1])
    }
}

/// The images with those of the first `count` items of a list.
pub open spec fn with_list(images: Seq<ImageModel>, items: Seq<Json>, count: nat) -> Seq<
    ImageModel,
>
    decreases count,
{
    if count == 0 {
        images
    } else {
        with_images(
            with_list(images, items, (count - 1) as nat),
            address_texts(items[count - 1]),
            address_texts(items[count - 1]).len(),
        )
    }
}

/// The images with those of a member, if it is a list.
pub open spec fn with_images_of(
    images: Seq<ImageModel>,
    members: Seq<JsonMember>,
    key: Seq<char>,
) -> Seq<ImageModel> {
    match member(members, key) {
        Some(Json::Array(items)) => with_list(images, items@, items@.len()),
        _ => images,
    }
}

/// What is found after an object's own members.
pub open spec fn post_noted(members: Seq<JsonMember>, post: PostModel) -> PostModel {
    PostModel {
        title: if post.title is None {
            title_of(members)
        } else {
            post.title
        },
        images: with_images_of(
            with_images_of(
                with_images_of(
                    with_images_of(post.images, members, "images"@),
                    members,
                    "image_list"@,
                ),
                members,
                "imageList"@,
            ),
            members,
            "image_list_v2"@,
        ),
    }
}

/// What is found after a value of which `levels` levels are visited.
pub open spec fn post_visited(node: Json, levels: nat, post: PostModel) -> PostModel
    decreases levels, 0nat,
{
    if levels == 0 || post.images.len() >= MAX_IMAGES {
        post
    } else {
        match node {
            Json::Object(members) => post_visited_members(
                members@,
                members@.len(),
                (levels - 1) as nat,
                post_noted(members@, post),
            ),
            Json::Array(items) => post_visited_items(
                items@,
                items@.len(),
                (levels - 1) as nat,
                post,
            ),
            _ => post,
        }
    }
}

pub open spec fn post_visited_items(items: Seq<Json>, count: nat, levels: nat, post: PostModel) -> PostModel
    decreases levels, count + 1,
{
    if count == 0 {
        post
    } else {
        post_visited(
            items[count - 1],
            levels,
            post_visited_items(items, (count - 1) as nat, levels, post),
        )
    }
}

pub open spec fn post_visited_members(
    members: Seq<JsonMember>,
    count: nat,
    levels: nat,
    post: PostModel,
) -> PostModel
    decreases levels, count + 1,
{
    if count == 0 {
        post
    } else {
        post_visited(
            members[count - 1].value,
            levels,
            post_visited_members(members, (count - 1) as nat, levels, post),
        )
    }
}

/// What is found after a document.
pub open spec fn post_of(value: Json, post: PostModel) -> PostModel {
    post_visited(value, MAX_JSON_LEVELS as nat, post)
}

fn find_title_in(members: &Vec<JsonMember>, key: &str) -> (title: Option<String>)
    ensures
        optional_text(title) == title_in(members@, key@),
{
    match member_text(members, key) {
        Some(text) => {
            let inner = trim(text.as_str());
            if inner.as_str().is_empty() {
                None
            } else {
                Some(inner)
            }
        },
        None => None,
    }
}

fn find_title(members: &Vec<JsonMember>) -> (title: Option<String>)
    ensures
        optional_text(title) == title_of(members@),
{
    match find_title_in(members, "desc") {
        Some(title) => Some(title),
        None => match find_title_in(members, "description") {
            Some(title) => Some(title),
            None => find_title_in(members, "title"),
        },
    }
}

fn image_known(images: &Vec<ShareImage>, url: &str) -> (known: bool)
    ensures
        known == has_image(images_model(images@), url@),
{
    let mut at: usize = 0;
    while at < images.len()
        invariant
            at <= images@.len(),
            forall|i: int| 0 <= i < at ==> #[trigger] images_model(images@)[i].url != url@,
        decreases images@.len() - at,
    {
        if same(images[at].url.as_str(), url) {
            assert(images_model(images@)[at as int].url == url@);
            return true;
        }
        at = at + 1;
    }
    false
}

fn add_images(item: &Json, images: &mut Vec<ShareImage>)
    ensures
        images_model(final(images)@) == with_images(
            images_model(old(images)@),
            address_texts(*item),
            address_texts(*item).len(),
        ),
{
    let mut addresses: Vec<String> = Vec::new();
    extract_address_urls(item, &mut addresses);
    assert(texts_model(addresses@) =~= address_texts(*item));
    let mut at: usize = 0;
    while at < addresses.len()
        invariant
            at <= addresses@.len(),
            texts_model(addresses@) == address_texts(*item),
            images_model(images@) == with_images(
                images_model(old(images)@),
                address_texts(*item),
                at as nat,
            ),
        decreases addresses@.len() - at,
    {
        assert(texts_model(addresses@)[at as int] == addresses@[at as int]@);
        let ghost before = images_model(images@);
        if let Some(url) = normalize_image_url(addresses[at].as_str()) {
            if !image_known(images, url.as_str()) {
                let image = ShareImage { url: url.to_text(), index: images.len() };
                let ghost model = image@;
                images.push(image);
                assert(images_model(images@) =~= before.push(model));
            }
        }
        at = at + 1;
    }
    assert(texts_model(addresses@).len() == addresses@.len());
}

fn add_images_of(members: &Vec<JsonMember>, key: &str, images: &mut Vec<ShareImage>)
    ensures
        images_model(final(images)@) == with_images_of(
            images_model(old(images)@),
            members@,
            key@,
        ),
{
    if let Some(Json::Array(items)) = find_member(members, key) {
        let mut at: usize = 0;
        while at < items.len()
            invariant
                at <= items@.len(),
                images_model(images@) == with_list(images_model(old(images)@), items@, at as nat),
            decreases items@.len() - at,
        {
            add_images(&items[at], images);
            at = at + 1;
        }
    }
}

fn visit(node: &Json, levels: usize, post: &mut Post)
    ensures
        final(post)@ == post_visited(*node, levels as nat, old(post)@),
    decreases levels, 0nat,
{
    assert(images_model(post.images@).len() == post.images@.len());
    if levels == 0 || post.images.len() >= MAX_IMAGES {
        return;
    }
    match node {
        Json::Object(members) => {
            if post.title.is_none() {
                post.title = find_title(members);
            }
            add_images_of(members, "images", &mut post.images);
            add_images_of(members, "image_list", &mut post.images);
            add_images_of(members, "imageList", &mut post.images);
            add_images_of(members, "image_list_v2", &mut post.images);
            let ghost start = post@;
            assert(start == post_noted(members@, old(post)@));
            let mut at: usize = 0;
            while at < members.len()
                invariant
                    at <= members@.len(),
                    levels > 0,
                    post@ == post_visited_members(
                        members@,
                        at as nat,
                        (levels - 1) as nat,
                        start,
                    ),
                decreases members@.len() - at,
            {
                visit(&members[at].value, levels - 1, post);
                at = at + 1;
            }
        },
        Json::Array(items) => {
            let mut at: usize = 0;
            while at < items.len()
                invariant
                    at <= items@.len(),
                    levels > 0,
                    post@ == post_visited_items(
                        items@,
                        at as nat,
                        (levels - 1) as nat,
                        old(post)@,
                    ),
                decreases items@.len() - at,
            {
                visit(&items[at], levels - 1, post);
                at = at + 1;
            }
        },
        _ => {},
    }
}

/// Adds the title and the images of a document to those found so far.
pub fn collect_title_and_images(value: &Json, post: &mut Post)
    ensures
        final(post)@ == post_of(*value, old(post)@),
{
    visit(value, MAX_JSON_LEVELS, post);
}

} // verus!
