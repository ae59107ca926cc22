use vstd::prelude::*;

verus! {

/// The domain part of an email address.
#[derive(Clone, Debug)]
pub enum EmailHost {
    /// A textual domain name.
    Domain(String),
    /// An address literal, such as an IP address in brackets.
    Literal(String),
}

/// A parsed email address.
#[derive(Clone, Debug)]
pub struct Email {
    pub local_part: String,
    /// Whether the local part is written in quotes.
    pub need_quoted: bool,
    pub domain_part: EmailHost,
    pub comment_before_local_part: Option<String>,
    pub comment_after_local_part: Option<String>,
    pub comment_before_domain_part: Option<String>,
    pub comment_after_domain_part: Option<String>,
    /// The whole address as the parser writes it.
    pub email_string: String,
}

/// A parsed URL, as the fields the canonicalizer reads.
#[derive(Clone, Debug)]
pub struct UrlParts {
    /// The whole URL as the parser writes it.
    pub serialization: String,
    pub scheme: String,
    /// Whether `://` follows the scheme.
    pub has_authority: bool,
    pub username: String,
    pub password: Option<String>,
    /// The host, where it is a domain name rather than an IP address.
    pub domain: Option<String>,
    /// The host as written.
    pub host: Option<String>,
    pub port: Option<u16>,
    pub path: String,
    pub query: Option<String>,
    pub fragment: Option<String>,
}

} // verus!
