//! URLs as plain values. The `url` crate parses, joins and edits them; the
//! functions that call it are the only trusted ones of this module.
use crate::text::{decimal, owned, same};
use vstd::prelude::*;

verus! {

/// The components of a URL.
#[verifier::ext_equal]
pub struct UrlModel {
    pub scheme: Seq<char>,
    pub username: Seq<char>,
    pub has_password: bool,
    /// The host's text, whether a name or an address.
    pub host: Option<Seq<char>>,
    /// The host's text where it is a name.
    pub domain: Option<Seq<char>>,
    /// The port, unless it is the scheme's own.
    pub port: Option<u16>,
    /// All that stands before the path.
    pub before_path: Seq<char>,
    pub path: Seq<char>,
    pub query: Option<Seq<char>>,
    pub fragment: Option<Seq<char>>,
}

impl UrlModel {
    /// The whole URL.
    pub open spec fn text(self) -> Seq<char> {
        self.before_path + self.path + self.after_path()
    }

    /// What follows the path.
    pub open spec fn after_path(self) -> Seq<char> {
        let query = match self.query {
            Some(query) => "?"@ + query,
            None => Seq::empty(),
        };
        let fragment = match self.fragment {
            Some(fragment) => "#"@ + fragment,
            None => Seq::empty(),
        };
        query + fragment
    }

    /// The query as name and value pairs, in order.
    pub open spec fn pairs(self) -> Seq<(Seq<char>, Seq<char>)> {
        match self.query {
            Some(query) => form_pairs(query),
            None => Seq::empty(),
        }
    }

    /// Where a path ends can be counted in 32 bits, also with this path.
    pub open spec fn allows_path(self, path: Seq<char>) -> bool {
        ||| (self.query is Some || self.fragment is Some) && path.len() <= self.path.len()
        ||| self.text().len() + path.len() <= u32::MAX
    }

    /// The scheme, the host and the port, if it is not the scheme's own.
    pub open spec fn origin(self) -> Seq<char> {
        let host = match self.host {
            Some(host) => host,
            None => Seq::empty(),
        };
        let port = match self.port {
            Some(port) => ":"@ + decimal(port as nat),
            None => Seq::empty(),
        };
        self.scheme + "://"@ + host + port
    }

    pub open spec fn is_https(self) -> bool {
        self.scheme == "https"@
    }
}

pub open spec fn optional_text(text: Option<String>) -> Option<Seq<char>> {
    match text {
        Some(text) => Some(text@),
        None => None,
    }
}

/// The components of a URL, read out of a parsed one.
pub struct UrlParts {
    pub text: String,
    pub scheme: String,
    pub username: String,
    pub has_password: bool,
    pub host: Option<String>,
    pub domain: Option<String>,
    pub port: Option<u16>,
    pub before_path: String,
    pub path: String,
    pub query: Option<String>,
    pub fragment: Option<String>,
}

impl View for UrlParts {
    type V = UrlModel;

    open spec fn view(&self) -> UrlModel {
        UrlModel {
            scheme: self.scheme@,
            username: self.username@,
            has_password: self.has_password,
            host: optional_text(self.host),
            domain: optional_text(self.domain),
            port: self.port,
            before_path: self.before_path@,
            path: self.path@,
            query: optional_text(self.query),
            fragment: optional_text(self.fragment),
        }
    }
}

impl UrlParts {
    /// The text is made of the components, a host's name is the host's text,
    /// and with the scheme `https` the text reads as the same URL again.
    pub open spec fn consistent(self) -> bool {
        &&& self.text@ == self@.text()
        &&& self@.domain is Some ==> self@.host == self@.domain
        &&& self@.is_https() ==> url_parsed(self.text@) == Some(self@)
    }
}

pub open spec fn optional_parts(parts: Option<UrlParts>) -> Option<UrlModel> {
    match parts {
        Some(parts) => Some(parts@),
        None => None,
    }
}

/// What `url::Url::parse` makes of a text.
pub uninterp spec fn url_parsed(text: Seq<char>) -> Option<UrlModel>;

/// What `url::Url::join` makes of a reference, from the URL that `base` reads as.
pub uninterp spec fn url_joined(base: Seq<char>, reference: Seq<char>) -> Option<UrlModel>;

/// The name and value pairs that `url::form_urlencoded::parse` reads in a query.
pub uninterp spec fn form_pairs(query: Seq<char>) -> Seq<(Seq<char>, Seq<char>)>;

/// Characters that a URL carries in a path or a query pair as they are.
pub open spec fn is_plain(character: char) -> bool {
    crate::text::is_alphanumeric(character) || character == '_' || character == '-'
}

/// A path of non-empty plain segments, with a slash before and after each.
pub open spec fn is_plain_path(path: Seq<char>) -> bool {
    &&& path.len() > 0
    &&& path[0] == '/'
    &&& path.last() == '/'
    &&& forall|i: int| 0 <= i < path.len() ==> is_plain(#[trigger] path[i]) || path[i] == '/'
    &&& forall|i: int| 0 <= i < path.len() - 1 ==> !(path[i] == '/' && #[trigger] path[i + 1] == '/')
}

/// A host name of labels in small letters, with a full stop between them.
pub open spec fn is_plain_host(host: Seq<char>) -> bool {
    &&& host.len() > 0
    &&& host[0] != '.'
    &&& host.last() != '.'
    &&& forall|i: int|
        0 <= i < host.len() ==> ('a' <= #[trigger] host[i] && host[i] <= 'z') || host[i] == '.'
    &&& forall|i: int| 0 <= i < host.len() - 1 ==> !(host[i] == '.' && #[trigger] host[i + 1] == '.')
}

/// The URL of a plain path on a plain host.
pub open spec fn plain_url(host: Seq<char>, path: Seq<char>) -> UrlModel {
    UrlModel {
        scheme: "https"@,
        username: Seq::empty(),
        has_password: false,
        host: Some(host),
        domain: Some(host),
        port: None,
        before_path: "https://"@ + host,
        path,
        query: None,
        fragment: None,
    }
}

/// A text of plain characters and full stops.
pub open spec fn is_plain_value(value: Seq<char>) -> bool {
    forall|i: int| 0 <= i < value.len() ==> is_plain(#[trigger] value[i]) || value[i] == '.'
}

/// The query with one more pair of plain texts.
pub open spec fn query_with(query: Option<Seq<char>>, key: Seq<char>, value: Seq<char>) -> Seq<char> {
    match query {
        Some(query) => if query.len() == 0 {
            key + "="@ + value
        } else {
            query + "&"@ + key + "="@ + value
        },
        None => key + "="@ + value,
    }
}

/// `url::Url::parse`. The components depend on the text alone. The URL's own
/// text is its components in order, a host's name is the host's text, and with
/// the scheme `https` parsing the text again gives the same URL, which the crate
/// lists among the invariants of its type. A text that joins a plain host and a
/// plain path with the scheme `https` is read as just these. The crate counts in
/// 32 bits where the host ends, so nothing is said of longer hosts; where such a
/// path ends it does not count.
#[verifier::external_body]
fn parse_parts(text: &str) -> (parsed: Option<UrlParts>)
    ensures
        optional_parts(parsed) == url_parsed(text@),
        parsed matches Some(parts) ==> parts.consistent(),
        forall|host: Seq<char>, path: Seq<char>|
            #![trigger plain_url(host, path)]
            is_plain_host(host) && host.len() < 0x4000_0000 && is_plain_path(path) && text@
                == plain_url(host, path).text() ==> optional_parts(parsed) == Some(
                plain_url(host, path),
            ),
{
    url::Url::parse(text).ok().map(|url| UrlParts {
        text: url.as_str().to_string(),
        scheme: url.scheme().to_string(),
        username: url.username().to_string(),
        has_password: url.password().is_some(),
        host: url.host_str().map(str::to_string),
        domain: url.domain().map(str::to_string),
        port: url.port(),
        before_path: url[..url::Position::BeforePath].to_string(),
        path: url.path().to_string(),
        query: url.query().map(str::to_string),
        fragment: url.fragment().map(str::to_string),
    })
}

/// `url::Url::join` on the URL that the base's text reads as. The result
/// depends on the two texts alone, and is consistent as a parsed URL is.
#[verifier::external_body]
fn join_parts(base: &str, reference: &str) -> (joined: Option<UrlParts>)
    ensures
        optional_parts(joined) == url_joined(base@, reference@),
        joined matches Some(parts) ==> parts.consistent(),
{
    url::Url::parse(base).ok()?.join(reference).ok().map(|url| UrlParts {
        text: url.as_str().to_string(),
        scheme: url.scheme().to_string(),
        username: url.username().to_string(),
        has_password: url.password().is_some(),
        host: url.host_str().map(str::to_string),
        domain: url.domain().map(str::to_string),
        port: url.port(),
        before_path: url[..url::Position::BeforePath].to_string(),
        path: url.path().to_string(),
        query: url.query().map(str::to_string),
        fragment: url.fragment().map(str::to_string),
    })
}

/// The text is that of an `https` URL, as the URL itself gives it.
pub open spec fn is_https_text(text: Seq<char>) -> bool {
    url_parsed(text) matches Some(url) && url.is_https() && url.text() == text
}

/// `url::Url::origin` of the `https` URL that the text reads as, and its
/// `ascii_serialization`: the scheme, the host, and the port where the URL has
/// one that is not the scheme's own.
#[verifier::external_body]
fn origin_text(text: &str) -> (origin: String)
    requires
        is_https_text(text@),
    ensures
        origin@ == url_parsed(text@)->0.origin(),
{
    url::Url::parse(text).expect("the text of a URL").origin().ascii_serialization()
}

/// `url::Url::set_path` on the `https` URL that the text reads as: a plain
/// path takes the old path's place and nothing else changes. The crate counts
/// in 32 bits where a path ends, and fails past that; where a query or a fragment
/// follows the old path, it is known to end before.
#[verifier::external_body]
fn set_path(text: &str, path: &str) -> (edited: String)
    requires
        is_https_text(text@),
        is_plain_path(path@),
        url_parsed(text@)->0.allows_path(path@),
    ensures
        url_parsed(edited@) == Some(UrlModel { path: path@, ..url_parsed(text@)->0 }),
{
    let mut url = url::Url::parse(text).expect("the text of a URL");
    url.set_path(path);
    url.to_string()
}

/// `url::Url::set_query(None)` on the `https` URL that the text reads as: it
/// loses its query and nothing else.
#[verifier::external_body]
fn clear_query(text: &str) -> (edited: String)
    requires
        is_https_text(text@),
    ensures
        url_parsed(edited@) == Some(UrlModel { query: None, ..url_parsed(text@)->0 }),
{
    let mut url = url::Url::parse(text).expect("the text of a URL");
    url.set_query(None);
    url.to_string()
}

/// `url::Url::set_fragment(None)` on the `https` URL that the text reads as:
/// it loses its fragment and nothing else.
#[verifier::external_body]
fn clear_fragment(text: &str) -> (edited: String)
    requires
        is_https_text(text@),
    ensures
        url_parsed(edited@) == Some(UrlModel { fragment: None, ..url_parsed(text@)->0 }),
{
    let mut url = url::Url::parse(text).expect("the text of a URL");
    url.set_fragment(None);
    url.to_string()
}

/// `url::Url::query_pairs_mut` and `append_pair` on the `https` URL that the
/// text reads as: a pair of plain texts is added to the query as it is, and
/// nothing else changes. The crate counts positions in 32 bits and fails past
/// that, so the URL must not grow longer.
#[verifier::external_body]
fn append_pair(text: &str, key: &str, value: &str) -> (edited: String)
    requires
        is_https_text(text@),
        is_plain_value(key@),
        is_plain_value(value@),
        text@.len() + key@.len() + value@.len() + 2 <= u32::MAX,
    ensures
        url_parsed(edited@) == Some(
            UrlModel {
                query: Some(query_with(url_parsed(text@)->0.query, key@, value@)),
                ..url_parsed(text@)->0
            },
        ),
{
    let mut url = url::Url::parse(text).expect("the text of a URL");
    url.query_pairs_mut().append_pair(key, value);
    url.to_string()
}

/// A name and a value of a query.
pub struct QueryPair {
    pub key: String,
    pub value: String,
}

pub open spec fn pairs_model(pairs: Seq<QueryPair>) -> Seq<(Seq<char>, Seq<char>)> {
    pairs.map_values(|pair: QueryPair| (pair.key@, pair.value@))
}

/// `url::form_urlencoded::parse`, by which a URL reads its query. The pairs
/// depend on the query alone, and an empty query has none.
#[verifier::external_body]
fn parse_query(query: &str) -> (pairs: Vec<QueryPair>)
    ensures
        pairs_model(pairs@) == form_pairs(query@),
        query@.len() == 0 ==> pairs@.len() == 0,
{
    url::form_urlencoded::parse(query.as_bytes())
        .map(|(key, value)| QueryPair { key: key.into_owned(), value: value.into_owned() })
        .collect()
}

/// A parsed URL.
pub struct WebUrl {
    parts: UrlParts,
}

impl View for WebUrl {
    type V = UrlModel;

    closed spec fn view(&self) -> UrlModel {
        self.parts@
    }
}

pub open spec fn optional_url(url: Option<WebUrl>) -> Option<UrlModel> {
    match url {
        Some(url) => Some(url@),
        None => None,
    }
}

impl WebUrl {
    #[verifier::type_invariant]
    spec fn keeps_parts(self) -> bool {
        self.parts.consistent()
    }

    /// The URL that `text` reads as.
    pub fn parse(text: &str) -> (url: Option<WebUrl>)
        ensures
            optional_url(url) == url_parsed(text@),
            forall|host: Seq<char>, path: Seq<char>|
                #![trigger plain_url(host, path)]
                is_plain_host(host) && host.len() < 0x4000_0000 && is_plain_path(path) && text@
                    == plain_url(host, path).text() ==> optional_url(url) == Some(
                    plain_url(host, path),
                ),
    {
        match parse_parts(text) {
            Some(parts) => Some(WebUrl { parts }),
            None => None,
        }
    }

    /// The URL that `reference` stands for on a page at this URL.
    pub fn join(&self, reference: &str) -> (url: Option<WebUrl>)
        ensures
            optional_url(url) == url_joined(self@.text(), reference@),
    {
        proof {
            use_type_invariant(self);
        }
        match join_parts(self.parts.text.as_str(), reference) {
            Some(parts) => Some(WebUrl { parts }),
            None => None,
        }
    }

    /// The whole URL.
    pub fn as_str(&self) -> (text: &str)
        ensures
            text@ == self@.text(),
    {
        proof {
            use_type_invariant(self);
        }
        self.parts.text.as_str()
    }

    /// The whole URL.
    pub fn to_text(&self) -> (text: String)
        ensures
            text@ == self@.text(),
    {
        owned(self.as_str())
    }

    /// A copy of the URL.
    pub fn duplicate(&self) -> (copy: WebUrl)
        ensures
            copy@ == self@,
    {
        proof {
            use_type_invariant(self);
        }
        let parts = UrlParts {
            text: self.parts.text.clone(),
            scheme: self.parts.scheme.clone(),
            username: self.parts.username.clone(),
            has_password: self.parts.has_password,
            host: clone_optional(&self.parts.host),
            domain: clone_optional(&self.parts.domain),
            port: self.parts.port,
            before_path: self.parts.before_path.clone(),
            path: self.parts.path.clone(),
            query: clone_optional(&self.parts.query),
            fragment: clone_optional(&self.parts.fragment),
        };
        WebUrl { parts }
    }

    pub fn scheme(&self) -> (text: &str)
        ensures
            text@ == self@.scheme,
    {
        self.parts.scheme.as_str()
    }

    pub fn username(&self) -> (text: &str)
        ensures
            text@ == self@.username,
    {
        self.parts.username.as_str()
    }

    pub fn has_password(&self) -> (found: bool)
        ensures
            found == self@.has_password,
    {
        self.parts.has_password
    }

    /// The host's text, whether a name or an address.
    pub fn host(&self) -> (text: Option<String>)
        ensures
            optional_text(text) == self@.host,
    {
        clone_optional(&self.parts.host)
    }

    /// The host's text where it is a name.
    pub fn domain(&self) -> (text: Option<String>)
        ensures
            optional_text(text) == self@.domain,
            text is Some ==> self@.host == self@.domain,
    {
        proof {
            use_type_invariant(self);
        }
        clone_optional(&self.parts.domain)
    }

    pub fn port(&self) -> (port: Option<u16>)
        ensures
            port == self@.port,
    {
        self.parts.port
    }

    /// The URL's origin.
    pub fn origin(&self) -> (text: String)
        requires
            self@.is_https(),
        ensures
            text@ == self@.origin(),
    {
        proof {
            use_type_invariant(self);
        }
        origin_text(self.parts.text.as_str())
    }

    pub fn path(&self) -> (text: &str)
        ensures
            text@ == self@.path,
    {
        self.parts.path.as_str()
    }

    pub fn query(&self) -> (text: Option<String>)
        ensures
            optional_text(text) == self@.query,
    {
        clone_optional(&self.parts.query)
    }

    /// The query as name and value pairs, in order.
    pub fn query_pairs(&self) -> (pairs: Vec<QueryPair>)
        ensures
            pairs_model(pairs@) == self@.pairs(),
    {
        match &self.parts.query {
            Some(query) => parse_query(query.as_str()),
            None => {
                proof {
                    reveal_strlit("");
                }
                let pairs = parse_query("");
                assert(pairs_model(pairs@) =~= Seq::empty());
                pairs
            },
        }
    }

    /// The URL that an edited text reads as.
    fn reread(&self, text: String) -> (url: WebUrl)
        requires
            url_parsed(text@) is Some,
        ensures
            Some(url@) == url_parsed(text@),
    {
        match WebUrl::parse(text.as_str()) {
            Some(url) => url,
            None => self.duplicate(),
        }
    }

    /// The URL with another path.
    pub(crate) fn with_path(&self, path: &str) -> (url: WebUrl)
        requires
            self@.is_https(),
            is_plain_path(path@),
            self@.allows_path(path@),
        ensures
            url@ == (UrlModel { path: path@, ..self@ }),
    {
        proof {
            use_type_invariant(self);
        }
        self.reread(set_path(self.parts.text.as_str(), path))
    }

    /// The URL without a query.
    pub(crate) fn without_query(&self) -> (url: WebUrl)
        requires
            self@.is_https(),
        ensures
            url@ == (UrlModel { query: None, ..self@ }),
    {
        proof {
            use_type_invariant(self);
        }
        self.reread(clear_query(self.parts.text.as_str()))
    }

    /// The URL without a fragment.
    pub(crate) fn without_fragment(&self) -> (url: WebUrl)
        requires
            self@.is_https(),
        ensures
            url@ == (UrlModel { fragment: None, ..self@ }),
    {
        proof {
            use_type_invariant(self);
        }
        self.reread(clear_fragment(self.parts.text.as_str()))
    }

    /// The URL with one more pair in its query.
    pub(crate) fn with_pair(&self, key: &str, value: &str) -> (url: WebUrl)
        requires
            self@.is_https(),
            is_plain_value(key@),
            is_plain_value(value@),
            self@.text().len() + key@.len() + value@.len() + 2 <= u32::MAX,
        ensures
            url@ == (UrlModel {
                query: Some(query_with(self@.query, key@, value@)),
                ..self@
            }),
    {
        proof {
            use_type_invariant(self);
        }
        self.reread(append_pair(self.parts.text.as_str(), key, value))
    }

    /// Whether the query holds a pair with this name and value.
    pub fn has_pair(&self, key: &str, value: &str) -> (found: bool)
        ensures
            found == self@.pairs().contains((key@, value@)),
    {
        let pairs = self.query_pairs();
        let mut at: usize = 0;
        while at < pairs.len()
            invariant
                at <= pairs@.len(),
                pairs_model(pairs@) == self@.pairs(),
                forall|i: int| 0 <= i < at ==> self@.pairs()[i] != (key@, value@),
            decreases pairs@.len() - at,
        {
            if same(pairs[at].key.as_str(), key) && same(pairs[at].value.as_str(), value) {
                assert(self@.pairs()[at as int] == (key@, value@));
                return true;
            }
            at = at + 1;
        }
        false
    }

    /// The value of the first pair with this name.
    pub fn first_value(&self, key: &str) -> (value: Option<String>)
        ensures
            optional_text(value) == first_value(self@.pairs(), key@),
    {
        let pairs = self.query_pairs();
        let mut at: usize = 0;
        assert(pairs_model(pairs@).skip(0) =~= self@.pairs());
        while at < pairs.len()
            invariant
                at <= pairs@.len(),
                pairs_model(pairs@) == self@.pairs(),
                first_value(pairs_model(pairs@).skip(at as int), key@) == first_value(
                    self@.pairs(),
                    key@,
                ),
            decreases pairs@.len() - at,
        {
            assert(pairs_model(pairs@).skip(at as int).skip(1) =~= pairs_model(pairs@).skip(
                at + 1,
            ));
            assert(pairs_model(pairs@).skip(at as int)[0] == (
                pairs@[at as int].key@,
                pairs@[at as int].value@,
            ));
            if same(pairs[at].key.as_str(), key) {
                return Some(pairs[at].value.clone());
            }
            at = at + 1;
        }
        None
    }
}

/// The value of the first pair with this name.
pub open spec fn first_value(pairs: Seq<(Seq<char>, Seq<char>)>, key: Seq<char>) -> Option<
    Seq<char>,
>
    decreases pairs.len(),
{
    if pairs.len() == 0 {
        None
    } else if pairs[0].0 == key {
        Some(pairs[0].1)
    } else {
        first_value(pairs.skip(1), key)
    }
}

/// A copy of an optional text.
pub fn clone_optional(text: &Option<String>) -> (copy: Option<String>)
    ensures
        optional_text(copy) == optional_text(*text),
{
    match text {
        Some(text) => Some(text.clone()),
        None => None,
    }
}

} // verus!
