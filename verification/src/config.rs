//! The service's configuration, from the values of environment variables that
//! the caller reads.
use crate::decode::unsigned_value;
use crate::errors::{ConfigError, ConfigErrorModel};
use crate::patterns::texts_model;
use crate::ranking::holds;
use crate::text::{
    chars_of, contains, decimal, decimal_of, holds_text, join2, join3, owned, same, split,
    split_at_mark, starts_with, string_of, trim, trim_end_by, trimmed,
};
use vstd::prelude::*;

verus! {

pub const DEFAULT_BIND_ADDR: &'static str = "0.0.0.0:8080";

pub const DEFAULT_BODY_LIMIT_BYTES: u64 = 65_536;

pub const DEFAULT_MAX_IN_FLIGHT: u64 = 8;

pub const DEFAULT_MAX_DOWNLOAD_BYTES: u64 = 2_147_483_648;

pub const DEFAULT_DOWNLOAD_DIR: &'static str = "data/downloads";

pub const DEFAULT_WEB_DIR: &'static str = "dist";

pub const DEFAULT_PUBLIC_DOWNLOAD_BASE: &'static str = "/downloads";

/// What the environment says of a variable.
pub enum Variable {
    Text(String),
    Missing,
    /// The value is no text; the error's own text.
    Unreadable(String),
}

/// What a [`Variable`] holds.
pub enum VariableModel {
    Text(Seq<char>),
    Missing,
    Unreadable(Seq<char>),
}

impl View for Variable {
    type V = VariableModel;

    open spec fn view(&self) -> VariableModel {
        match self {
            Variable::Text(text) => VariableModel::Text(text@),
            Variable::Missing => VariableModel::Missing,
            Variable::Unreadable(error) => VariableModel::Unreadable(error@),
        }
    }
}

pub open spec fn value_or(variable: VariableModel, default: Seq<char>) -> Seq<char> {
    match variable {
        VariableModel::Text(text) => text,
        _ => default,
    }
}

/// The value of a variable, or the default where there is none that is text.
pub fn env_value(variable: &Variable, default: &str) -> (value: String)
    ensures
        value@ == value_or(variable@, default@),
{
    match variable {
        Variable::Text(text) => text.clone(),
        _ => owned(default),
    }
}

/// The text of the error with which `str::parse` refuses a `u64`.
pub uninterp spec fn number_error(text: Seq<char>) -> Seq<char>;

/// `str::parse` into a `u64`: it reads decimal digits, with a plus sign or none
/// before them, where the number fits. What the error's text says is not stated,
/// only that it depends on the text alone.
#[verifier::external_body]
fn parse_number(text: &str) -> (number: Result<u64, String>)
    ensures
        match number {
            Ok(number) => unsigned_value(text@, 10, u64::MAX as nat) == Some(number as nat),
            Err(error) => unsigned_value(text@, 10, u64::MAX as nat) is None && error@
                == number_error(text@),
        },
{
    text.parse::<u64>().map_err(|error| error.to_string())
}

/// A number that was read, if it lies between the bounds.
pub open spec fn number_within(
    name: Seq<char>,
    number: Result<u64, Seq<char>>,
    min: u64,
    max: u64,
) -> Result<u64, ConfigErrorModel> {
    match number {
        Err(error) => Err(ConfigErrorModel { variable: name, message: error }),
        Ok(number) => if min <= number <= max {
            Ok(number)
        } else {
            Err(
                ConfigErrorModel {
                    variable: name,
                    message: "must be between "@ + decimal(min as nat) + " and "@ + decimal(
                        max as nat,
                    ),
                },
            )
        },
    }
}

/// The number that a variable gives, or else the default.
pub open spec fn number_given(variable: VariableModel, default: u64) -> Result<u64, Seq<char>> {
    match variable {
        VariableModel::Missing => Ok(default),
        VariableModel::Unreadable(error) => Err(error),
        VariableModel::Text(text) => match unsigned_value(text, 10, u64::MAX as nat) {
            Some(number) => Ok(number as u64),
            None => Err(number_error(text)),
        },
    }
}

pub open spec fn number_result(number: Result<u64, String>) -> Result<u64, Seq<char>> {
    match number {
        Ok(number) => Ok(number),
        Err(error) => Err(error@),
    }
}

/// `result` succeeds or fails as `model` does, with the same content.
pub open spec fn number_agrees(
    result: Result<u64, ConfigError>,
    model: Result<u64, ConfigErrorModel>,
) -> bool {
    match result {
        Ok(number) => model == Ok::<u64, ConfigErrorModel>(number),
        Err(error) => model == Err::<u64, ConfigErrorModel>(error@),
    }
}

/// A number that was read, if it lies between the bounds.
pub fn bound_number(
    name: &str,
    number: Result<u64, String>,
    min: u64,
    max: u64,
) -> (bounded: Result<u64, ConfigError>)
    ensures
        number_agrees(bounded, number_within(name@, number_result(number), min, max)),
{
    match number {
        Err(error) => Err(ConfigError::new(name, error.as_str())),
        Ok(number) => {
            if number < min || number > max {
                let low = decimal_of(min);
                let high = decimal_of(max);
                let head = join3("must be between ", low.as_str(), " and ");
                let message = join2(head.as_str(), high.as_str());
                return Err(ConfigError::message(name, message.as_str()));
            }
            Ok(number)
        },
    }
}

/// The number that a variable gives, or else the default, if it lies between
/// the bounds.
pub fn parse_bounded_env(
    name: &str,
    variable: &Variable,
    default: u64,
    min: u64,
    max: u64,
) -> (bounded: Result<u64, ConfigError>)
    ensures
        number_agrees(
            bounded,
            number_within(name@, number_given(variable@, default), min, max),
        ),
{
    let number = match variable {
        Variable::Missing => Ok(default),
        Variable::Unreadable(error) => Err(error.clone()),
        Variable::Text(text) => parse_number(text.as_str()),
    };
    bound_number(name, number, min, max)
}

/// The value without white space around it and without slashes at its end.
pub open spec fn base_trimmed(value: Seq<char>) -> Seq<char> {
    trim_end_by(trimmed(value), |character: char| character == '/')
}

/// An absolute path without a step up, a query or a fragment.
pub open spec fn is_safe_base(base: Seq<char>) -> bool {
    &&& "/"@.is_prefix_of(base)
    &&& !holds_text(base, ".."@)
    &&& !base.contains('?')
    &&& !base.contains('#')
}

/// The path below which files are offered.
pub open spec fn public_base(value: Seq<char>) -> Result<Seq<char>, ConfigErrorModel> {
    if is_safe_base(base_trimmed(value)) {
        Ok(base_trimmed(value))
    } else {
        Err(
            ConfigErrorModel {
                variable: "QSY_API_PUBLIC_DOWNLOAD_BASE"@,
                message: "must be an absolute URL path without '..', query, or fragment"@,
            },
        )
    }
}

fn trim_slashes(text: &str) -> (inner: String)
    ensures
        inner@ == trim_end_by(text@, |character: char| character == '/'),
{
    let chars = chars_of(text);
    let ghost drop = |character: char| character == '/';
    let mut to: usize = chars.len();
    assert(chars@.take(to as int) =~= chars@);
    while to > 0 && chars[to - 1] == '/'
        invariant
            to <= chars@.len(),
            drop == (|character: char| character == '/'),
            trim_end_by(chars@.take(to as int), drop) == trim_end_by(chars@, drop),
        decreases to,
    {
        assert(chars@.take(to as int).drop_last() =~= chars@.take(to - 1));
        to = to - 1;
    }
    assert(chars@.take(to as int) =~= chars@.subrange(0, to as int));
    string_of(&chars, 0, to)
}

fn has_char(text: &str, wanted: char) -> (found: bool)
    ensures
        found == text@.contains(wanted),
{
    let chars = chars_of(text);
    let mut at: usize = 0;
    while at < chars.len()
        invariant
            at <= chars@.len(),
            chars@ == text@,
            forall|i: int| 0 <= i < at ==> text@[i] != wanted,
        decreases chars@.len() - at,
    {
        if chars[at] == wanted {
            assert(text@[at as int] == wanted);
            return true;
        }
        at = at + 1;
    }
    false
}

/// The path below which files are offered.
pub fn normalize_public_base(value: &str) -> (base: Result<String, ConfigError>)
    ensures
        match base {
            Ok(base) => public_base(value@) == Ok::<Seq<char>, ConfigErrorModel>(base@),
            Err(error) => public_base(value@) == Err::<Seq<char>, ConfigErrorModel>(error@),
        },
{
    let inner = trim(value);
    let base = trim_slashes(inner.as_str());
    let path = base.as_str();
    if !starts_with(path, "/") || contains(path, "..") || has_char(path, '?') || has_char(
        path,
        '#',
    ) {
        return Err(
            ConfigError::message(
                "QSY_API_PUBLIC_DOWNLOAD_BASE",
                "must be an absolute URL path without '..', query, or fragment",
            ),
        );
    }
    Ok(base)
}

/// A path below which files are offered is absolute, has no step up, no query
/// and no fragment, does not end in a slash, and is left as it is when it is
/// configured again, unless white space stood before its last slash.
pub proof fn public_base_is_a_safe_path(value: Seq<char>, base: Seq<char>)
    requires
        public_base(value) == Ok::<Seq<char>, ConfigErrorModel>(base),
    ensures
        is_safe_base(base),
        base.len() > 1,
        base[0] == '/',
        base.last() != '/',
        !crate::text::is_space(base.last()) ==> public_base(base) == Ok::<
            Seq<char>,
            ConfigErrorModel,
        >(base),
{
    reveal_strlit("/");
    crate::text::lemma_trim_end(trimmed(value), |character: char| character == '/');
    assert("/"@[0] == base[0]);
}

/// The origins that may call the service from a browser.
pub enum CorsOrigins {
    Any,
    List(Vec<String>),
}

/// What [`CorsOrigins`] holds.
pub enum CorsModel {
    Any,
    List(Seq<Seq<char>>),
}

impl View for CorsOrigins {
    type V = CorsModel;

    open spec fn view(&self) -> CorsModel {
        match self {
            CorsOrigins::Any => CorsModel::Any,
            CorsOrigins::List(origins) => CorsModel::List(texts_model(origins@)),
        }
    }
}

/// The character may stand in a header.
pub open spec fn is_header_char(character: char) -> bool {
    (character as u32 >= 32 && character as u32 != 127) || character == '\t'
}

/// The text may be the value of a header.
pub open spec fn is_header_text(text: Seq<char>) -> bool {
    forall|i: int| 0 <= i < text.len() ==> is_header_char(#[trigger] text[i])
}

/// `str::parse` into an `axum::http::HeaderValue`, which refuses control
/// characters other than the tab, always with the same words.
#[verifier::external_body]
fn check_header(text: &str) -> (checked: Result<(), String>)
    ensures
        checked is Ok <==> is_header_text(text@),
        checked matches Err(error) ==> error@ == "failed to parse header value"@,
{
    text.parse::<axum::http::HeaderValue>().map(|_| ()).map_err(|error| error.to_string())
}

/// What formatting a text with `{:?}` gives.
pub uninterp spec fn debug_text(text: Seq<char>) -> Seq<char>;

/// `std::fmt::Debug` of a `str`, through `format!`: quotes around the text, with
/// escapes in it. Which characters are escaped is not stated, only that the
/// result depends on the text alone.
#[verifier::external_body]
fn quoted(text: &str) -> (shown: String)
    ensures
        shown@ == debug_text(text@),
{
    format!("{text:?}")
}

/// The first `count` pieces without white space around them, as far as anything
/// is left of them.
pub open spec fn filled_pieces(pieces: Seq<Seq<char>>, count: nat) -> Seq<Seq<char>>
    decreases count,
{
    if count == 0 {
        Seq::empty()
    } else {
        let before = filled_pieces(pieces, (count - 1) as nat);
        let piece = trimmed(pieces[count - 1]);
        if piece.len() == 0 {
            before
        } else {
            before.push(piece)
        }
    }
}

/// The origins that a list with commas names.
pub open spec fn origins_in(value: Seq<char>) -> Seq<Seq<char>> {
    filled_pieces(split_at_mark(value, ','), split_at_mark(value, ',').len())
}

/// The refusal of an origin, given how it is shown and why it is refused.
pub open spec fn origin_refused(shown: Seq<char>, reason: Seq<char>) -> ConfigErrorModel {
    ConfigErrorModel {
        variable: "QSY_API_CORS_ORIGINS"@,
        message: "invalid origin "@ + shown + ": "@ + reason,
    }
}

/// The refusal of an origin, given how it is shown and why it is refused.
pub fn refuse_origin(shown: &str, reason: &str) -> (refusal: ConfigError)
    ensures
        refusal@ == origin_refused(shown@, reason@),
{
    let head = join3("invalid origin ", shown, ": ");
    let message = join2(head.as_str(), reason);
    ConfigError::message("QSY_API_CORS_ORIGINS", message.as_str())
}

/// The first of the origins, from `from` on, that may not be the value of a
/// header.
pub open spec fn first_refused(origins: Seq<Seq<char>>, from: nat) -> Option<Seq<char>>
    decreases origins.len() - from,
{
    if from >= origins.len() {
        None
    } else if !is_header_text(origins[from as int]) {
        Some(origins[from as int])
    } else {
        first_refused(origins, from + 1)
    }
}

/// The origins that a variable allows: any, or those of a list.
pub open spec fn origins_allowed(value: Seq<char>) -> Result<CorsModel, ConfigErrorModel> {
    let origins = origins_in(value);
    if origins == seq!["*"@] {
        Ok(CorsModel::Any)
    } else if origins.len() == 0 || origins.contains("*"@) {
        Err(
            ConfigErrorModel {
                variable: "QSY_API_CORS_ORIGINS"@,
                message: "use '*' alone or provide a comma-separated origin list"@,
            },
        )
    } else {
        match first_refused(origins, 0) {
            Some(origin) => Err(
                origin_refused(debug_text(origin), "failed to parse header value"@),
            ),
            None => Ok(CorsModel::List(origins)),
        }
    }
}

fn list_origins(value: &str) -> (origins: Vec<String>)
    ensures
        texts_model(origins@) == origins_in(value@),
{
    let pieces = split(value, ',');
    let mut origins: Vec<String> = Vec::new();
    let mut at: usize = 0;
    assert(texts_model(origins@) =~= Seq::empty());
    while at < pieces.len()
        invariant
            at <= pieces@.len(),
            texts_model(origins@) == filled_pieces(texts_model(pieces@), at as nat),
        decreases pieces@.len() - at,
    {
        assert(texts_model(pieces@)[at as int] == pieces@[at as int]@);
        let piece = trim(pieces[at].as_str());
        let ghost before = texts_model(origins@);
        let ghost text = piece@;
        if !piece.as_str().is_empty() {
            origins.push(piece);
            assert(texts_model(origins@) =~= before.push(text));
        }
        at = at + 1;
    }
    assert(texts_model(pieces@).len() == pieces@.len());
    origins
}

impl CorsOrigins {
    /// The origins that a variable allows: any, or those of a list.
    pub fn parse(value: &str) -> (origins: Result<CorsOrigins, ConfigError>)
        ensures
            match origins {
                Ok(origins) => origins_allowed(value@) == Ok::<CorsModel, ConfigErrorModel>(
                    origins@,
                ),
                Err(error) => origins_allowed(value@) == Err::<CorsModel, ConfigErrorModel>(
                    error@,
                ),
            },
    {
        let origins = list_origins(value);
        assert(texts_model(origins@).len() == origins@.len());
        if origins.len() == 1 && same(origins[0].as_str(), "*") {
            assert(texts_model(origins@) =~= seq!["*"@]);
            return Ok(CorsOrigins::Any);
        }
        proof {
            if texts_model(origins@) == seq!["*"@] {
                assert(texts_model(origins@)[0] == origins@[0]@);
            }
        }
        if origins.len() == 0 || holds(&origins, "*") {
            return Err(
                ConfigError::message(
                    "QSY_API_CORS_ORIGINS",
                    "use '*' alone or provide a comma-separated origin list",
                ),
            );
        }
        let mut at: usize = 0;
        while at < origins.len()
            invariant
                at <= origins@.len(),
                texts_model(origins@) == origins_in(value@),
                origins_in(value@) != seq!["*"@],
                origins_in(value@).len() == origins@.len() > 0,
                !origins_in(value@).contains("*"@),
                first_refused(origins_in(value@), 0) == first_refused(
                    origins_in(value@),
                    at as nat,
                ),
            decreases origins@.len() - at,
        {
            assert(texts_model(origins@)[at as int] == origins@[at as int]@);
            if let Err(error) = check_header(origins[at].as_str()) {
                let shown = quoted(origins[at].as_str());
                return Err(refuse_origin(shown.as_str(), error.as_str()));
            }
            at = at + 1;
        }
        Ok(CorsOrigins::List(origins))
    }
}

/// The variables that configure the service.
pub struct Environment {
    /// The socket address that `QSY_API_BIND_ADDR`, or else the default, was
    /// parsed into by the caller, as text; or the text of the error.
    pub bind_addr: Result<String, String>,
    pub body_limit_bytes: Variable,
    pub max_in_flight: Variable,
    pub max_download_bytes: Variable,
    pub download_dir: Variable,
    pub web_dir: Variable,
    pub public_download_base: Variable,
    pub cors_origins: Variable,
}

/// The service's configuration.
pub struct ApiConfig {
    /// The socket address as text.
    pub bind_addr: String,
    pub body_limit_bytes: usize,
    pub max_in_flight: usize,
    pub max_download_bytes: u64,
    pub download_dir: String,
    pub web_dir: String,
    pub public_download_base: String,
    pub cors_origins: CorsOrigins,
}

/// What an [`ApiConfig`] holds.
pub struct ConfigModel {
    pub bind_addr: Seq<char>,
    pub body_limit_bytes: nat,
    pub max_in_flight: nat,
    pub max_download_bytes: nat,
    pub download_dir: Seq<char>,
    pub web_dir: Seq<char>,
    pub public_download_base: Seq<char>,
    pub cors_origins: CorsModel,
}

impl View for ApiConfig {
    type V = ConfigModel;

    open spec fn view(&self) -> ConfigModel {
        ConfigModel {
            bind_addr: self.bind_addr@,
            body_limit_bytes: self.body_limit_bytes as nat,
            max_in_flight: self.max_in_flight as nat,
            max_download_bytes: self.max_download_bytes as nat,
            download_dir: self.download_dir@,
            web_dir: self.web_dir@,
            public_download_base: self.public_download_base@,
            cors_origins: self.cors_origins@,
        }
    }
}

pub open spec fn body_limit(environment: Environment) -> Result<u64, ConfigErrorModel> {
    number_within(
        "QSY_API_BODY_LIMIT_BYTES"@,
        number_given(environment.body_limit_bytes@, DEFAULT_BODY_LIMIT_BYTES),
        1024,
        1_048_576,
    )
}

pub open spec fn in_flight(environment: Environment) -> Result<u64, ConfigErrorModel> {
    number_within(
        "QSY_API_MAX_IN_FLIGHT"@,
        number_given(environment.max_in_flight@, DEFAULT_MAX_IN_FLIGHT),
        1,
        128,
    )
}

pub open spec fn download_limit(environment: Environment) -> Result<u64, ConfigErrorModel> {
    number_within(
        "QSY_API_MAX_DOWNLOAD_BYTES"@,
        number_given(environment.max_download_bytes@, DEFAULT_MAX_DOWNLOAD_BYTES),
        1_048_576,
        21_474_836_480,
    )
}

/// The configuration that the variables give; the first of them that gives none
/// is the error.
pub open spec fn configured(environment: Environment) -> Result<ConfigModel, ConfigErrorModel> {
    match environment.bind_addr {
        Err(error) => Err(
            ConfigErrorModel { variable: "QSY_API_BIND_ADDR"@, message: error@ },
        ),
        Ok(bind_addr) => match body_limit(environment) {
            Err(error) => Err(error),
            Ok(body_limit_bytes) => match in_flight(environment) {
                Err(error) => Err(error),
                Ok(max_in_flight) => match download_limit(environment) {
                    Err(error) => Err(error),
                    Ok(max_download_bytes) => match public_base(
                        value_or(
                            environment.public_download_base@,
                            DEFAULT_PUBLIC_DOWNLOAD_BASE@,
                        ),
                    ) {
                        Err(error) => Err(error),
                        Ok(public_download_base) => match origins_allowed(
                            value_or(environment.cors_origins@, "*"@),
                        ) {
                            Err(error) => Err(error),
                            Ok(cors_origins) => Ok(
                                ConfigModel {
                                    bind_addr: bind_addr@,
                                    body_limit_bytes: body_limit_bytes as nat,
                                    max_in_flight: max_in_flight as nat,
                                    max_download_bytes: max_download_bytes as nat,
                                    download_dir: value_or(
                                        environment.download_dir@,
                                        DEFAULT_DOWNLOAD_DIR@,
                                    ),
                                    web_dir: value_or(environment.web_dir@, DEFAULT_WEB_DIR@),
                                    public_download_base,
                                    cors_origins,
                                },
                            ),
                        },
                    },
                },
            },
        },
    }
}

impl ApiConfig {
    /// The configuration that the variables give; see [`configured`].
    pub fn from_env(environment: &Environment) -> (config: Result<ApiConfig, ConfigError>)
        ensures
            match config {
                Ok(config) => configured(*environment) == Ok::<ConfigModel, ConfigErrorModel>(
                    config@,
                ),
                Err(error) => configured(*environment) == Err::<ConfigModel, ConfigErrorModel>(
                    error@,
                ),
            },
    {
        let bind_addr = match &environment.bind_addr {
            Ok(bind_addr) => bind_addr.clone(),
            Err(error) => {
                return Err(ConfigError::new("QSY_API_BIND_ADDR", error.as_str()));
            },
        };
        let body_limit_bytes: u64 = match parse_bounded_env(
            "QSY_API_BODY_LIMIT_BYTES",
            &environment.body_limit_bytes,
            DEFAULT_BODY_LIMIT_BYTES,
            1024,
            1_048_576,
        ) {
            Ok(number) => number,
            Err(error) => {
                return Err(error);
            },
        };
        let max_in_flight: u64 = match parse_bounded_env(
            "QSY_API_MAX_IN_FLIGHT",
            &environment.max_in_flight,
            DEFAULT_MAX_IN_FLIGHT,
            1,
            128,
        ) {
            Ok(number) => number,
            Err(error) => {
                return Err(error);
            },
        };
        let max_download_bytes: u64 = match parse_bounded_env(
            "QSY_API_MAX_DOWNLOAD_BYTES",
            &environment.max_download_bytes,
            DEFAULT_MAX_DOWNLOAD_BYTES,
            1_048_576,
            21_474_836_480,
        ) {
            Ok(number) => number,
            Err(error) => {
                return Err(error);
            },
        };
        let base = env_value(&environment.public_download_base, DEFAULT_PUBLIC_DOWNLOAD_BASE);
        let public_download_base = match normalize_public_base(base.as_str()) {
            Ok(base) => base,
            Err(error) => {
                return Err(error);
            },
        };
        let origins = env_value(&environment.cors_origins, "*");
        let cors_origins = match CorsOrigins::parse(origins.as_str()) {
            Ok(origins) => origins,
            Err(error) => {
                return Err(error);
            },
        };
        Ok(
            ApiConfig {
                bind_addr,
                body_limit_bytes: body_limit_bytes as usize,
                max_in_flight: max_in_flight as usize,
                max_download_bytes,
                download_dir: env_value(&environment.download_dir, DEFAULT_DOWNLOAD_DIR),
                web_dir: env_value(&environment.web_dir, DEFAULT_WEB_DIR),
                public_download_base,
                cors_origins,
            },
        )
    }
}

/// A configuration stays within its bounds, and offers files below a safe path.
pub proof fn configuration_is_bounded(environment: Environment, config: ConfigModel)
    requires
        configured(environment) == Ok::<ConfigModel, ConfigErrorModel>(config),
    ensures
        1024 <= config.body_limit_bytes <= 1_048_576,
        1 <= config.max_in_flight <= 128,
        1_048_576 <= config.max_download_bytes <= 21_474_836_480,
        is_safe_base(config.public_download_base),
        config.cors_origins matches CorsModel::List(origins) ==> origins.len() > 0
            && !origins.contains("*"@),
{
}

} // verus!
