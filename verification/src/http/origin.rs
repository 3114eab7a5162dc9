//! Where a request goes.

use crate::http::error::HttpError;
#[allow(unused_imports)]
use crate::http::error::HttpErrorView;
#[allow(unused_imports)]
use crate::text::{decimal, lowered};
use crate::text::{has_char, lowercase, push_decimal, same_text};
use ureq_proto::http::Uri;
use vstd::prelude::*;

verus! {

/// The parts of an address that say where a request goes.
#[derive(Debug)]
pub struct UriParts {
    pub scheme: Option<String>,
    pub host: Option<String>,
    pub port: Option<u16>,
}

/// What [`UriParts`] say.
#[verifier::ext_equal]
pub struct UriPartsView {
    pub scheme: Option<Seq<char>>,
    pub host: Option<Seq<char>>,
    pub port: Option<u16>,
}

/// A text that may be missing.
pub open spec fn optional(text: Option<String>) -> Option<Seq<char>> {
    match text {
        Some(text) => Some(text@),
        None => None,
    }
}

impl View for UriParts {
    type V = UriPartsView;

    open spec fn view(&self) -> UriPartsView {
        UriPartsView {
            scheme: optional(self.scheme),
            host: optional(self.host),
            port: self.port,
        }
    }
}

/// What the `http` crate reads in the text of an address; `None` where it is none.
pub uninterp spec fn uri_parts(text: Seq<char>) -> Option<UriPartsView>;

/// Parses an address as `http::Uri` and takes its scheme, host and port out (`scheme_str`, `host`
/// and `port_u16`). The result is a function of the text, and has a name.
#[verifier::external_body]
pub(crate) fn parse_uri(text: &str) -> (parts: Option<UriParts>)
    ensures
        parts is Some <==> uri_parts(text@) is Some,
        parts matches Some(parts) ==> uri_parts(text@) == Some(parts@),
{
    let uri: Uri = text.parse().ok()?;
    Some(
        UriParts {
            scheme: uri.scheme_str().map(|scheme| scheme.to_owned()),
            host: uri.host().map(|host| host.to_owned()),
            port: uri.port_u16(),
        },
    )
}

/// Where connections can be shared: scheme, host and port.
#[derive(Debug)]
pub struct Origin {
    pub secure: bool,
    pub host: String,
    pub port: u16,
}

/// What an [`Origin`] says.
#[verifier::ext_equal]
pub struct OriginView {
    pub secure: bool,
    pub host: Seq<char>,
    pub port: u16,
}

impl View for Origin {
    type V = OriginView;

    open spec fn view(&self) -> OriginView {
        OriginView { secure: self.secure, host: self.host@, port: self.port }
    }
}

/// The address of a host and a port, with brackets round a host that holds a colon.
pub open spec fn address_of(host: Seq<char>, port: u16) -> Seq<char> {
    if host.contains(':') {
        "["@ + host + "]:"@ + decimal(port as nat)
    } else {
        host + ":"@ + decimal(port as nat)
    }
}

/// The address of a host and a port.
pub fn address(host: &str, port: u16) -> (address: String)
    ensures
        address@ == address_of(host@, port),
{
    let mut address = String::new();
    if has_char(host, ':') {
        address.append("[");
        address.append(host);
        address.append("]:");
    } else {
        address.append(host);
        address.append(":");
    }
    push_decimal(&mut address, port as u64);
    assert(host@.contains(':') ==> address@ =~= "["@ + host@ + "]:"@ + decimal(port as nat));
    assert(!host@.contains(':') ==> address@ =~= host@ + ":"@ + decimal(port as nat));
    address
}

impl OriginView {
    /// The address to connect to.
    pub open spec fn address(self) -> Seq<char> {
        address_of(self.host, self.port)
    }
}

impl UriPartsView {
    /// Where a request to the address goes, or why it goes nowhere.
    pub open spec fn origin(self) -> Result<OriginView, HttpErrorView> {
        match self.scheme {
            None => Err(HttpErrorView::InvalidUri("缺少 scheme"@)),
            Some(scheme) => if scheme != "http"@ && scheme != "https"@ {
                Err(HttpErrorView::UnsupportedScheme(scheme))
            } else {
                match self.host {
                    None => Err(HttpErrorView::InvalidUri("缺少 host"@)),
                    Some(host) => Ok(
                        OriginView {
                            secure: scheme == "https"@,
                            host: lowered(host),
                            port: match self.port {
                                Some(port) => port,
                                None => if scheme == "https"@ {
                                    443
                                } else {
                                    80
                                },
                            },
                        },
                    ),
                }
            },
        }
    }
}

/// Where a request to the address that a text writes goes, or why it goes nowhere.
pub open spec fn origin_of(text: Seq<char>) -> Result<OriginView, HttpErrorView> {
    match uri_parts(text) {
        Some(parts) => parts.origin(),
        None => Err(HttpErrorView::InvalidUri(text)),
    }
}

impl Origin {
    /// What a result says.
    pub open spec fn result_view(result: Result<Origin, HttpError>) -> Result<
        OriginView,
        HttpErrorView,
    > {
        match result {
            Ok(origin) => Ok(origin@),
            Err(error) => Err(error@),
        }
    }

    /// Where a request to an address goes.
    pub fn from_parts(parts: &UriParts) -> (result: Result<Origin, HttpError>)
        ensures
            Origin::result_view(result) == parts@.origin(),
    {
        let secure = match &parts.scheme {
            None => return Err(HttpError::InvalidUri("缺少 scheme".to_owned())),
            Some(scheme) => {
                if same_text(scheme.as_str(), "https") {
                    true
                } else if same_text(scheme.as_str(), "http") {
                    proof {
                        reveal_strlit("http");
                        reveal_strlit("https");
                        assert("http"@.len() != "https"@.len());
                    }
                    false
                } else {
                    return Err(HttpError::UnsupportedScheme(scheme.clone()));
                }
            },
        };
        match &parts.host {
            None => Err(HttpError::InvalidUri("缺少 host".to_owned())),
            Some(host) => {
                let port: u16 = match parts.port {
                    Some(port) => port,
                    None => if secure {
                        443
                    } else {
                        80
                    },
                };
                Ok(Origin { secure, host: lowercase(host.as_str()), port })
            },
        }
    }

    /// Where a request to the address that a text writes goes.
    pub fn from_uri(text: &str) -> (result: Result<Origin, HttpError>)
        ensures
            Origin::result_view(result) == origin_of(text@),
    {
        match parse_uri(text) {
            Some(parts) => Origin::from_parts(&parts),
            None => Err(HttpError::InvalidUri(text.to_owned())),
        }
    }

    /// The address to connect to.
    pub fn address(&self) -> (text: String)
        ensures
            text@ == self@.address(),
    {
        address(self.host.as_str(), self.port)
    }

    /// Whether connections can be shared with another origin.
    pub fn same(&self, other: &Origin) -> (same: bool)
        ensures
            same == (self@ == other@),
    {
        self.secure == other.secure && self.port == other.port && self.host == other.host
    }

    /// The same origin once more.
    pub fn copy(&self) -> (origin: Origin)
        ensures
            origin@ == self@,
    {
        Origin { secure: self.secure, host: self.host.clone(), port: self.port }
    }
}

/// Whether a host is written in upper or in lower case makes no difference.
pub proof fn law_host_case_makes_no_difference(first: UriPartsView, second: UriPartsView)
    requires
        first.scheme == second.scheme,
        first.port == second.port,
        first.host is Some,
        second.host is Some,
        lowered(first.host->0) == lowered(second.host->0),
    ensures
        first.origin() == second.origin(),
{
}

} // verus!
