//! The configuration of a proxy: backends with the areas they serve, the
//! rules a configuration has to meet before an index is built from it, and
//! the URL that a request is forwarded to.

use vstd::prelude::*;
use vstd::string::StringExecFns;
use vstd::utf8::encode_utf8;

use crate::definition::{definitions_view, is_degenerate, regions_of, Definition};
use crate::entry::GeometryError;
use crate::index::GeoIndex;
use crate::ty::Polygon;

verus! {

/// What the `url` crate reads off a URL: its serialization, its scheme,
/// whether it names a host, and whether it cannot be a base.
#[derive(Clone, Debug, PartialEq, Eq)]
pub struct UrlFacts {
    pub text: String,
    pub scheme: String,
    pub has_host: bool,
    pub cannot_be_a_base: bool,
}

/// `UrlFacts` as the contracts see them.
pub struct UrlView {
    pub text: Seq<char>,
    pub scheme: Seq<char>,
    pub has_host: bool,
    pub cannot_be_a_base: bool,
}

impl View for UrlFacts {
    type V = UrlView;

    open spec fn view(&self) -> UrlView {
        UrlView {
            text: self.text@,
            scheme: self.scheme@,
            has_host: self.has_host,
            cannot_be_a_base: self.cannot_be_a_base,
        }
    }
}

/// What `url::Url::parse` makes of `text`: nothing where it refuses the
/// text, and else the URL it parsed, as read off through `Url::as_str`,
/// `Url::scheme`, `Url::has_host` and `Url::cannot_be_a_base`.
pub uninterp spec fn url_facts(text: Seq<char>) -> Option<UrlView>;

/// The most bytes a text may have to be parsed as a URL.
///
/// `url` turns a host that is not plain ASCII into Punycode, and the
/// encoder (of the `idna` crate) counts in 32 bits without a guard on every
/// step: a label of some 3850 characters can exhaust the count. A label is
/// made from the host by mapping and normalising it, which gives at most
/// eighteen characters for each byte of the text (one character of three
/// bytes is mapped to eighteen at most, and normalising triples their
/// number at most). From a text of 200 bytes no label has more than 3600.
pub const MAX_URL_LEN: usize = 200;

/// Calls `url::Url::parse` and, on the URL it gives, `as_str`, `scheme`,
/// `has_host` and `cannot_be_a_base`.
///
/// `parse` can panic on a text whose host is long enough to exhaust the
/// count of the Punycode encoder; the bound on the text rules that out.
/// The contract claims no more than that the result is what `url` makes
/// of the text.
#[verifier::external_body]
pub(crate) fn examine_url(text: &str) -> (facts: Option<UrlFacts>)
    requires
        byte_len(text@) <= MAX_URL_LEN,
    ensures
        facts is None <==> url_facts(text@) is None,
        facts matches Some(found) ==> url_facts(text@) == Some(found@),
{
    match url::Url::parse(text) {
        Ok(url) => Some(
            UrlFacts {
                text: url.as_str().to_owned(),
                scheme: url.scheme().to_owned(),
                has_host: url.has_host(),
                cannot_be_a_base: url.cannot_be_a_base(),
            },
        ),
        Err(_) => None,
    }
}

/// The most bytes that the path and the query of a request may each have
/// for a URL to be put together from them. `url` keeps positions within a
/// URL in 32 bits and writes three bytes at most for each byte of a path
/// or a query: from a base URL of `MAX_URL_LEN` bytes and parts of up to
/// 16 MiB each, the URL stays far below what 32 bits can hold.
pub const MAX_URL_PART_LEN: usize = 0x0100_0000;

/// How many bytes a text takes.
pub open spec fn byte_len(text: Seq<char>) -> usize {
    encode_utf8(text).len() as usize
}

/// The query of a request, if it has one, as the contracts see it.
pub open spec fn query_view(query: Option<&str>) -> Option<Seq<char>> {
    match query {
        Some(text) => Some(text@),
        None => None,
    }
}

/// What `url` makes of a base URL whose path and query are replaced:
/// nothing where `url::Url::parse` refuses `base`, and else the
/// serialization of the URL it parsed after `Url::set_path` with `path` and
/// `Url::set_query` with `query`.
pub uninterp spec fn mapped_url(
    base: Seq<char>,
    path: Seq<char>,
    query: Option<Seq<char>>,
) -> Option<Seq<char>>;

/// Calls `url::Url::parse` on `base` and, on the URL it gives,
/// `Url::set_path`, `Url::set_query` and `Url::into_string`.
///
/// `parse` is kept from panicking by the bound on `base`, as in
/// `examine_url`. The two setters panic where the URL outgrows the 32 bits
/// in which `url` keeps its positions; the bounds on the three parts keep
/// it far below that. The contract claims no more than that the result is
/// what `url` makes of the three parts.
#[verifier::external_body]
pub(crate) fn rewrite_url(base: &str, path: &str, query: Option<&str>) -> (mapped: Option<String>)
    requires
        byte_len(base@) <= MAX_URL_LEN,
        byte_len(path@) <= MAX_URL_PART_LEN,
        query matches Some(text) ==> byte_len(text@) <= MAX_URL_PART_LEN,
    ensures
        mapped is None <==> mapped_url(base@, path@, query_view(query)) is None,
        mapped matches Some(text) ==> mapped_url(base@, path@, query_view(query)) == Some(text@),
{
    match url::Url::parse(base) {
        Ok(mut url) => {
            url.set_path(path);
            url.set_query(query);
            Some(url.into_string())
        },
        Err(_) => None,
    }
}

/// A text as `Debug` shows it: between double quotes, with the characters
/// escaped that `Debug` escapes in a `str`.
pub uninterp spec fn quoted(text: Seq<char>) -> Seq<char>;

/// Formats `text` with `{:?}`, which is std's `Debug` for `str`.
///
/// The contract claims no more than that the result is what `Debug` shows
/// for the text.
#[verifier::external_body]
pub(crate) fn quote(text: &str) -> (shown: String)
    ensures
        shown@ == quoted(text@),
{
    format!("{:?}", text)
}

/// What can be wrong with a backend definition.
#[derive(Clone, Copy, Debug, PartialEq, Eq, Structural)]
pub enum Fault {
    /// The backend's URL cannot be a base, or its scheme is neither `http`
    /// nor `https`.
    UnsupportedScheme,
    /// The backend's URL names no host.
    MissingHost,
    /// The definition declares no area.
    NoAreas,
}

/// A fault, with the URL of the backend that has it.
#[derive(Clone, Debug, PartialEq, Eq)]
pub struct ConfigError {
    pub fault: Fault,
    pub url: String,
}

impl ConfigError {
    /// The error in words, for whoever wrote the configuration. A fault of
    /// the URL is followed by the URL, a definition without areas by its
    /// backend as `Debug` shows a backend.
    pub fn message(&self) -> (message: String)
        ensures
            self.fault == Fault::UnsupportedScheme ==> message@
                == "Backend URL scheme has to be http(s), "@ + self.url@,
            self.fault == Fault::MissingHost ==> message@
                == "Backend URL needs to have a host specified, "@ + self.url@,
            self.fault == Fault::NoAreas ==> message@
                == "Backend definition has to have at least one area declared: "@
                + "Backend { base_url: "@ + quoted(self.url@) + " }"@,
    {
        match self.fault {
            Fault::UnsupportedScheme => String::from_str(
                "Backend URL scheme has to be http(s), ",
            ).concat(self.url.as_str()),
            Fault::MissingHost => String::from_str(
                "Backend URL needs to have a host specified, ",
            ).concat(self.url.as_str()),
            Fault::NoAreas => {
                let shown = quote(self.url.as_str());
                String::from_str(
                    "Backend definition has to have at least one area declared: ",
                ).concat("Backend { base_url: ").concat(shown.as_str()).concat(" }")
            },
        }
    }
}

/// A destination that requests are forwarded to.
#[derive(Clone, Debug, PartialEq, Eq)]
pub struct Backend {
    base_url: UrlFacts,
}

impl Backend {
    /// The backend's base URL.
    pub closed spec fn url(&self) -> UrlView {
        self.base_url@
    }

    /// What is wrong with the backend, if anything: a base URL that cannot
    /// be a base or whose scheme is neither `http` nor `https` comes
    /// first, one without a host second.
    pub open spec fn fault(&self) -> Option<Fault> {
        if self.url().cannot_be_a_base || (self.url().scheme != "http"@ && self.url().scheme
            != "https"@) {
            Some(Fault::UnsupportedScheme)
        } else if !self.url().has_host {
            Some(Fault::MissingHost)
        } else {
            None
        }
    }

    /// The backend whose base URL is the one that `base_url` describes.
    pub fn new(base_url: UrlFacts) -> (backend: Backend)
        ensures
            backend.url() == base_url@,
    {
        Backend { base_url }
    }

    /// The base URL that `text` gives: what `url` makes of it, where the
    /// text is a URL and neither it nor the URL as `url` writes it is longer
    /// than `MAX_URL_LEN` bytes.
    pub open spec fn admitted(text: Seq<char>) -> Option<UrlView> {
        if byte_len(text) > MAX_URL_LEN {
            None
        } else {
            match url_facts(text) {
                Some(found) => if byte_len(found.text) <= MAX_URL_LEN {
                    Some(found)
                } else {
                    None
                },
                None => None,
            }
        }
    }

    /// The backend with the base URL `text`. There is none where `text` is
    /// no URL, or where it is too long to be a base URL, as given or as
    /// `url` writes it.
    pub fn parse(text: &str) -> (parsed: Option<Backend>)
        ensures
            parsed is None <==> Self::admitted(text@) is None,
            parsed matches Some(backend) ==> Self::admitted(text@) == Some(backend.url()),
    {
        if text.len() > MAX_URL_LEN {
            return None;
        }
        match examine_url(text) {
            Some(base_url) => if base_url.text.as_str().len() <= MAX_URL_LEN {
                Some(Backend { base_url })
            } else {
                None
            },
            None => None,
        }
    }

    /// The base URL, as `url` writes it.
    pub fn base_url(&self) -> (text: &str)
        ensures
            text@ == self.url().text,
    {
        self.base_url.text.as_str()
    }

    /// Accepts the backend where nothing is wrong with it, and else names
    /// the fault.
    pub fn validate(&self) -> (verdict: Result<(), ConfigError>)
        ensures
            verdict is Ok <==> self.fault() is None,
            verdict matches Err(error) ==> self.fault() == Some(error.fault) && error.url@
                == self.url().text,
    {
        let http = String::from_str("http");
        let https = String::from_str("https");
        if self.base_url.cannot_be_a_base || (self.base_url.scheme != http && self.base_url.scheme
            != https) {
            Err(ConfigError { fault: Fault::UnsupportedScheme, url: self.base_url.text.clone() })
        } else if !self.base_url.has_host {
            Err(ConfigError { fault: Fault::MissingHost, url: self.base_url.text.clone() })
        } else {
            Ok(())
        }
    }

    /// The three parts are each short enough for a URL to be put together
    /// from them.
    pub open spec fn can_map(&self, path: Seq<char>, query: Option<Seq<char>>) -> bool {
        &&& byte_len(self.url().text) <= MAX_URL_LEN
        &&& byte_len(path) <= MAX_URL_PART_LEN
        &&& query matches Some(text) ==> byte_len(text) <= MAX_URL_PART_LEN
    }

    /// The URL that a request for `path` and `query` is forwarded to: the
    /// backend's base URL, with its path and its query replaced by those of
    /// the request. There is none where the base URL is longer than
    /// `MAX_URL_LEN` bytes or the path or the query longer than
    /// `MAX_URL_PART_LEN`, or where `url` does not take the base URL. A
    /// backend that `parse` gave has a base URL that is short enough.
    pub fn map_url(&self, path: &str, query: Option<&str>) -> (mapped: Option<String>)
        ensures
            mapped is None <==> !self.can_map(path@, query_view(query)) || mapped_url(
                self.url().text,
                path@,
                query_view(query),
            ) is None,
            mapped matches Some(text) ==> mapped_url(self.url().text, path@, query_view(query))
                == Some(text@),
    {
        let base = self.base_url.text.as_str();
        let fits = match query {
            Some(text) => text.len() <= MAX_URL_PART_LEN,
            None => true,
        };
        if base.len() <= MAX_URL_LEN && path.len() <= MAX_URL_PART_LEN && fits {
            rewrite_url(base, path, query)
        } else {
            None
        }
    }
}

/// A backend and the areas it serves.
#[derive(Clone, Debug, PartialEq, Eq)]
pub struct BackendDefinition {
    pub areas: Vec<Polygon<i32>>,
    pub backend: Backend,
}

impl BackendDefinition {
    /// What is wrong with the definition, if anything: a definition
    /// without areas comes first, a fault of its backend second.
    pub open spec fn fault(&self) -> Option<Fault> {
        if self.areas@.len() == 0 {
            Some(Fault::NoAreas)
        } else {
            self.backend.fault()
        }
    }

    /// Accepts the definition where nothing is wrong with it, and else
    /// names the fault.
    pub fn validate(&self) -> (verdict: Result<(), ConfigError>)
        ensures
            verdict is Ok <==> self.fault() is None,
            verdict matches Err(error) ==> self.fault() == Some(error.fault) && error.url@
                == self.backend.url().text,
    {
        if self.areas.len() == 0 {
            Err(ConfigError { fault: Fault::NoAreas, url: String::from_str(self.backend.base_url()) })
        } else {
            self.backend.validate()
        }
    }
}

/// The whole configuration: the backends with their areas, and the backend
/// for requests that no area takes in.
#[derive(Clone, Debug, PartialEq, Eq)]
pub struct ProxyConfig {
    pub backends: Vec<BackendDefinition>,
    pub default_backend: Backend,
}

impl ProxyConfig {
    /// The definitions an index is built from: for each backend, in order,
    /// the rings of its areas and the backend.
    pub open spec fn definitions(&self) -> Seq<Definition<Backend>> {
        self.backends@.map_values(
            |definition: BackendDefinition|
                (definition.areas@.map_values(|area: Polygon<i32>| area@), definition.backend),
        )
    }

    /// Nothing is wrong with the configuration: neither with any of its
    /// backend definitions nor with its default backend.
    pub open spec fn in_order(&self) -> bool {
        &&& forall|i: int|
            0 <= i < self.backends@.len() ==> (#[trigger] self.backends@[i]).fault() is None
        &&& self.default_backend.fault() is None
    }

    /// Accepts the configuration where nothing is wrong with any of its
    /// backend definitions nor with its default backend. Else it names the
    /// fault of the first backend definition that has one, or, where they
    /// are all in order, that of the default backend.
    pub fn validate(&self) -> (verdict: Result<(), ConfigError>)
        ensures
            verdict is Ok <==> self.in_order(),
            verdict matches Err(error) ==> {
                ||| exists|i: int|
                    0 <= i < self.backends@.len() && (#[trigger] self.backends@[i]).fault()
                        == Some(error.fault) && error.url@ == self.backends@[i].backend.url().text
                        && forall|n: int|
                        0 <= n < i ==> (#[trigger] self.backends@[n]).fault() is None
                ||| {
                    &&& forall|n: int|
                        0 <= n < self.backends@.len() ==> (#[trigger] self.backends@[n]).fault()
                            is None
                    &&& self.default_backend.fault() == Some(error.fault)
                    &&& error.url@ == self.default_backend.url().text
                }
            },
    {
        let mut i: usize = 0;
        while i < self.backends.len()
            invariant
                i <= self.backends.len(),
                forall|n: int| 0 <= n < i ==> (#[trigger] self.backends@[n]).fault() is None,
            decreases self.backends.len() - i,
        {
            match self.backends[i].validate() {
                Ok(()) => {},
                Err(error) => {
                    return Err(error);
                },
            }
            i += 1;
        }
        self.default_backend.validate()
    }
}

/// Builds the index that routes by a configuration: the areas of each
/// backend map to that backend, in the order of the configuration, and
/// its default backend is the default.
pub fn setup_index(config: ProxyConfig) -> (built: Result<GeoIndex<Backend>, GeometryError>)
    ensures
        built is Err <==> exists|i: int|
            0 <= i < config.backends@.len() && is_degenerate(#[trigger] config.definitions()[i]),
        built matches Err(GeometryError::DegenerateGeometry { definition }) ==> {
            &&& definition < config.backends@.len()
            &&& is_degenerate(config.definitions()[definition as int])
            &&& forall|n: int|
                0 <= n < definition ==> !is_degenerate(#[trigger] config.definitions()[n])
        },
        built matches Ok(index) ==> {
            &&& index.well_formed()
            &&& index.definitions() == config.definitions()
            &&& index.regions() == regions_of(config.definitions())
            &&& index.default_value() == config.default_backend
        },
{
    let ghost wanted = config.definitions();
    let ghost given = config.backends@;
    let ProxyConfig { backends, default_backend } = config;
    let mut defs: Vec<(Vec<Polygon<i32>>, Backend)> = Vec::new();
    for definition in it: backends
        invariant
            it.seq() == given,
            defs.len() == it.index(),
            forall|k: int|
                0 <= k < defs.len() ==> (#[trigger] defs[k]) == (given[k].areas, given[k].backend),
    {
        let BackendDefinition { areas, backend } = definition;
        defs.push((areas, backend));
    }
    assert(definitions_view(defs@) =~= wanted);
    GeoIndex::new(defs, default_backend)
}

} // verus!
