use cow_utils::CowUtils;
use std::borrow::Cow;
use crate::models::{Email, EmailHost, UrlParts};
use vstd::prelude::*;
use vstd::string::{StrSliceExecFns, StringExecFns};

verus! {

pub open spec fn is_ascii_lower(c: char) -> bool {
    'a' <= c && c <= 'z'
}

pub open spec fn has_ascii_lower(s: Seq<char>) -> bool {
    exists|i: int| 0 <= i < s.len() && is_ascii_lower(#[trigger] s[i])
}

/// `c` with an ASCII lowercase letter made uppercase.
pub open spec fn upper_char(c: char) -> char {
    if is_ascii_lower(c) {
        ((c as u32) - 32) as char
    } else {
        c
    }
}

/// `s` with each ASCII lowercase letter made uppercase.
pub open spec fn ascii_upper(s: Seq<char>) -> Seq<char> {
    s.map_values(|c: char| upper_char(c))
}

/// Relies on cow_utils' `cow_to_ascii_uppercase`: it borrows `s` when no byte
/// is an ASCII lowercase letter, and otherwise returns an owned copy with
/// each ASCII lowercase letter made uppercase and every other byte kept.
#[verifier::external_body]
fn ascii_uppercase(s: &str) -> (r: Option<String>)
    ensures
        r is None <==> !has_ascii_lower(s@),
        r is Some ==> r->0@ == ascii_upper(s@),
{
    match s.cow_to_ascii_uppercase() {
        Cow::Owned(t) => Some(t),
        Cow::Borrowed(_) => None,
    }
}

pub proof fn lemma_upper_has_no_lower(s: Seq<char>)
    ensures
        !has_ascii_lower(ascii_upper(s)),
{
    assert forall|i: int| 0 <= i < s.len() implies !is_ascii_lower(#[trigger] ascii_upper(s)[i]) by {
        let c = s[i];
        if is_ascii_lower(c) {
            assert((((c as u32) - 32) as char) as u32 == (c as u32) - 32);
        }
    }
}

pub open spec fn digit_char(d: int) -> char {
    seq!['0', '1', '2', '3', '4', '5', '6', '7', '8', '9'][d]
}

/// The decimal digits of `n`, without leading zeros.
pub open spec fn decimal(n: nat) -> Seq<char>
    decreases n,
{
    if n < 10 {
        seq![digit_char(n as int)]
    } else {
        decimal(n / 10).push(digit_char((n % 10) as int))
    }
}

fn digit_str(d: u16) -> (r: &'static str)
    requires
        d < 10,
    ensures
        r@ == seq![digit_char(d as int)],
{
    proof {
        reveal_strlit("0");
        reveal_strlit("1");
        reveal_strlit("2");
        reveal_strlit("3");
        reveal_strlit("4");
        reveal_strlit("5");
        reveal_strlit("6");
        reveal_strlit("7");
        reveal_strlit("8");
        reveal_strlit("9");
    }
    match d {
        0 => "0",
        1 => "1",
        2 => "2",
        3 => "3",
        4 => "4",
        5 => "5",
        6 => "6",
        7 => "7",
        8 => "8",
        _ => "9",
    }
}

/// Appends the decimal digits of `n` to `s`.
fn push_decimal(s: &mut String, n: u16)
    ensures
        final(s)@ == old(s)@ + decimal(n as nat),
    decreases n,
{
    if n >= 10 {
        push_decimal(s, n / 10);
    }
    s.append(digit_str(n % 10));
    assert(s@ =~= old(s)@ + decimal(n as nat));
}

/// `text` with `c` before it, if there is one.
pub open spec fn prefixed(c: char, text: Option<String>) -> Seq<char> {
    match text {
        Some(t) => seq![c] + t@,
        None => seq![],
    }
}

/// `text` in parentheses, if there is one.
pub open spec fn comment(text: Option<String>) -> Seq<char> {
    match text {
        Some(t) => seq!['('] + t@ + seq![')'],
        None => seq![],
    }
}

/// The user name and password with their separators, if there is either.
pub open spec fn userinfo(u: UrlParts) -> Seq<char> {
    if u.username@.len() == 0 && u.password is None {
        seq![]
    } else {
        u.username@ + prefixed(':', u.password) + seq!['@']
    }
}

pub open spec fn scheme_has_lower(u: UrlParts) -> bool {
    has_ascii_lower(u.scheme@)
}

pub open spec fn domain_has_lower(u: UrlParts) -> bool {
    u.domain is Some && has_ascii_lower(u.domain->0@)
}

/// The host as it goes into the URL text: uppercase where it is a domain
/// with a lowercase letter.
pub open spec fn host_text(u: UrlParts) -> Seq<char> {
    if domain_has_lower(u) {
        ascii_upper(u.domain->0@)
    } else {
        match u.host {
            Some(h) => h@,
            None => seq![],
        }
    }
}

pub open spec fn port_text(port: Option<u16>) -> Seq<char> {
    match port {
        Some(p) => seq![':'] + decimal(p as nat),
        None => seq![],
    }
}

/// What follows the scheme in a URL with an authority.
pub open spec fn url_rest(u: UrlParts) -> Seq<char> {
    seq![':', '/', '/'] + userinfo(u) + host_text(u) + port_text(u.port) + u.path@ + prefixed('?', u.query)
        + prefixed('#', u.fragment)
}

/// The URL text handed to the optimizer: the URL as written, with the scheme
/// and a domain host in uppercase; the other parts are kept as they are.
pub open spec fn url_text(u: UrlParts) -> Seq<char> {
    let whole = u.serialization@;
    if !scheme_has_lower(u) && !domain_has_lower(u) {
        whole
    } else if scheme_has_lower(u) && !u.has_authority {
        let k = if u.scheme@.len() <= whole.len() {
            u.scheme@.len() as int
        } else {
            whole.len() as int
        };
        ascii_upper(u.scheme@) + whole.subrange(k, whole.len() as int)
    } else if scheme_has_lower(u) {
        ascii_upper(u.scheme@) + url_rest(u)
    } else {
        u.scheme@ + url_rest(u)
    }
}

fn push_prefixed(s: &mut String, sep: &str, text: &Option<String>, c: Ghost<char>)
    requires
        sep@ == seq![c@],
    ensures
        final(s)@ == old(s)@ + prefixed(c@, *text),
{
    match text {
        Some(t) => {
            s.append(sep);
            s.append(t.as_str());
        },
        None => {},
    }
    assert(s@ =~= old(s)@ + prefixed(c@, *text));
}

fn push_comment(s: &mut String, text: &Option<String>)
    ensures
        final(s)@ == old(s)@ + comment(*text),
{
    proof {
        reveal_strlit("(");
        reveal_strlit(")");
    }
    match text {
        Some(t) => {
            s.append("(");
            s.append(t.as_str());
            s.append(")");
        },
        None => {},
    }
    assert(s@ =~= old(s)@ + comment(*text));
}

/// Appends to `s` what follows the scheme in a URL with an authority.
fn push_url_rest(s: &mut String, u: &UrlParts, domain_up: &Option<String>)
    requires
        domain_up is Some <==> domain_has_lower(*u),
        domain_up is Some ==> domain_up->0@ == ascii_upper(u.domain->0@),
    ensures
        final(s)@ == old(s)@ + url_rest(*u),
{
    proof {
        reveal_strlit("://");
        reveal_strlit(":");
        reveal_strlit("@");
        reveal_strlit("?");
        reveal_strlit("#");
        assert(":"@ =~= seq![':']);
        assert("?"@ =~= seq!['?']);
        assert("#"@ =~= seq!['#']);
    }
    s.append("://");
    let ghost s1 = s@;
    if u.username.as_str().unicode_len() != 0 || u.password.is_some() {
        s.append(u.username.as_str());
        push_prefixed(s, ":", &u.password, Ghost(':'));
        s.append("@");
    }
    assert(s@ =~= s1 + userinfo(*u));
    let ghost s2 = s@;
    match domain_up {
        Some(d) => {
            s.append(d.as_str());
        },
        None => match &u.host {
            Some(h) => {
                s.append(h.as_str());
            },
            None => {},
        },
    }
    assert(s@ =~= s2 + host_text(*u));
    let ghost s3 = s@;
    match u.port {
        Some(p) => {
            s.append(":");
            push_decimal(s, p);
        },
        None => {},
    }
    assert(s@ =~= s3 + port_text(u.port));
    s.append(u.path.as_str());
    push_prefixed(s, "?", &u.query, Ghost('?'));
    push_prefixed(s, "#", &u.fragment, Ghost('#'));
    assert(s@ =~= old(s)@ + url_rest(*u));
}

/// The text of `url` with its scheme and a domain host in uppercase, so that
/// more of it fits alphanumeric mode; where neither holds a lowercase letter
/// the URL is returned as written.
pub fn canonical_url(url: &UrlParts) -> (r: String)
    ensures
        r@ == url_text(*url),
{
    let u = url;
    let scheme_up = ascii_uppercase(u.scheme.as_str());
    let domain_up = match &u.domain {
        Some(d) => ascii_uppercase(d.as_str()),
        None => None,
    };
    if scheme_up.is_none() && domain_up.is_none() {
        return u.serialization.clone();
    }
    let mut s = String::new();
    match &scheme_up {
        Some(up) => {
            s.append(up.as_str());
            if !u.has_authority {
                let whole = u.serialization.as_str();
                let n = whole.unicode_len();
                let m = u.scheme.as_str().unicode_len();
                let k = if m <= n {
                    m
                } else {
                    n
                };
                s.append(whole.substring_char(k, n));
                return s;
            }
        },
        None => {
            s.append(u.scheme.as_str());
        },
    }
    push_url_rest(&mut s, u, &domain_up);
    s
}

pub open spec fn quote(need_quoted: bool) -> Seq<char> {
    if need_quoted {
        seq!['"']
    } else {
        seq![]
    }
}

pub open spec fn email_domain_has_lower(e: Email) -> bool {
    match e.domain_part {
        EmailHost::Domain(d) => has_ascii_lower(d@),
        EmailHost::Literal(_) => false,
    }
}

/// The email text handed to the optimizer: where the domain part is a domain
/// name with a lowercase letter, the address written again with that domain
/// in uppercase and the local part, its quotes and the comments kept as they
/// are; otherwise the address as written.
pub open spec fn email_text(e: Email) -> Seq<char> {
    match e.domain_part {
        EmailHost::Domain(d) => if has_ascii_lower(d@) {
            comment(e.comment_before_local_part) + quote(e.need_quoted) + e.local_part@ + quote(
                e.need_quoted,
            ) + comment(e.comment_after_local_part) + seq!['@'] + comment(
                e.comment_before_domain_part,
            ) + ascii_upper(d@) + comment(e.comment_after_domain_part)
        } else {
            e.email_string@
        },
        EmailHost::Literal(_) => e.email_string@,
    }
}

fn push_quote(s: &mut String, need_quoted: bool)
    ensures
        final(s)@ == old(s)@ + quote(need_quoted),
{
    proof {
        reveal_strlit("\"");
    }
    if need_quoted {
        s.append("\"");
    }
    assert(s@ =~= old(s)@ + quote(need_quoted));
}

/// The text of `email` with a domain name in uppercase, so that more of it
/// fits alphanumeric mode; otherwise the address as written.
pub fn canonical_email(email: &Email) -> (r: String)
    ensures
        r@ == email_text(*email),
{
    let e = email;
    match &e.domain_part {
        EmailHost::Domain(d) => {
            match ascii_uppercase(d.as_str()) {
                Some(up) => {
                    proof {
                        reveal_strlit("@");
                    }
                    let mut s = String::new();
                    push_comment(&mut s, &e.comment_before_local_part);
                    push_quote(&mut s, e.need_quoted);
                    s.append(e.local_part.as_str());
                    push_quote(&mut s, e.need_quoted);
                    push_comment(&mut s, &e.comment_after_local_part);
                    s.append("@");
                    push_comment(&mut s, &e.comment_before_domain_part);
                    s.append(up.as_str());
                    push_comment(&mut s, &e.comment_after_domain_part);
                    assert(s@ =~= email_text(*e));
                    s
                },
                None => e.email_string.clone(),
            }
        },
        EmailHost::Literal(_) => e.email_string.clone(),
    }
}

/// A URL whose scheme and domain hold no ASCII lowercase letter is handed on
/// exactly as written.
pub proof fn lemma_url_unchanged(u: UrlParts)
    requires
        !has_ascii_lower(u.scheme@),
        u.domain is Some ==> !has_ascii_lower(u.domain->0@),
    ensures
        url_text(u) == u.serialization@,
{
}

/// Canonicalizing is idempotent: run again on the URL it wrote, whose scheme
/// and domain are the uppercase ones, it writes the same text.
pub proof fn lemma_url_idempotent(u: UrlParts, v: UrlParts)
    requires
        v.serialization@ == url_text(u),
        v.scheme@ == ascii_upper(u.scheme@),
        v.domain is Some <==> u.domain is Some,
        v.domain is Some ==> v.domain->0@ == ascii_upper(u.domain->0@),
    ensures
        url_text(v) == url_text(u),
{
    lemma_upper_has_no_lower(u.scheme@);
    if u.domain is Some {
        lemma_upper_has_no_lower(u.domain->0@);
    }
}

/// An email address whose domain holds no ASCII lowercase letter, or is an
/// address literal, is handed on exactly as written.
pub proof fn lemma_email_unchanged(e: Email)
    requires
        !email_domain_has_lower(e),
    ensures
        email_text(e) == e.email_string@,
{
}

/// Canonicalizing is idempotent: run again on the address it wrote, whose
/// domain is the uppercase one, it writes the same text.
pub proof fn lemma_email_idempotent(e: Email, f: Email)
    requires
        f.email_string@ == email_text(e),
        match (e.domain_part, f.domain_part) {
            (EmailHost::Domain(d), EmailHost::Domain(g)) => g@ == ascii_upper(d@),
            (EmailHost::Literal(_), EmailHost::Literal(_)) => true,
            _ => false,
        },
    ensures
        email_text(f) == email_text(e),
{
    match e.domain_part {
        EmailHost::Domain(d) => lemma_upper_has_no_lower(d@),
        EmailHost::Literal(_) => {},
    }
}

} // verus!
