use vstd::prelude::*;

verus! {

/// What `http::Uri::from_str` makes of a text: whether the parsed URI has a
/// scheme, or the text of the parse error.
pub uninterp spec fn spec_parse_uri(text: Seq<char>) -> Result<bool, Seq<char>>;

/// Parses `text` with `http::Uri::from_str`. The contract claims only that the
/// outcome is the named result `spec_parse_uri` of the text: on success,
/// whether the URI has a scheme; on failure, the error's display text.
#[verifier::external_body]
fn parse_uri(text: &str) -> (res: Result<bool, String>)
    ensures
        match res {
            Ok(has_scheme) => spec_parse_uri(text@) == Ok::<bool, Seq<char>>(has_scheme),
            Err(msg) => spec_parse_uri(text@) == Err::<bool, Seq<char>>(msg@),
        },
{
    match text.parse::<http::Uri>() {
        Ok(uri) => Ok(uri.scheme().is_some()),
        Err(err) => Err(err.to_string()),
    }
}

/// The message given for a URI without scheme.
pub open spec fn missing_scheme_message() -> Seq<char> {
    "URI must have scheme"@
}

/// A URI text is valid when it parses and has a scheme.
pub open spec fn spec_validate_uri(text: Seq<char>) -> Result<(), Seq<char>> {
    match spec_parse_uri(text) {
        Ok(true) => Ok(()),
        Ok(false) => Err(missing_scheme_message()),
        Err(msg) => Err(msg),
    }
}

/// Checks that `text` is a URI with a scheme; the error is the message shown
/// beside the address box.
pub fn validate_uri(text: &str) -> (res: Result<(), String>)
    ensures
        match res {
            Ok(()) => spec_validate_uri(text@) == Ok::<(), Seq<char>>(()),
            Err(msg) => spec_validate_uri(text@) == Err::<(), Seq<char>>(msg@),
        },
{
    match parse_uri(text) {
        Ok(true) => Ok(()),
        Ok(false) => Err("URI must have scheme".to_owned()),
        Err(msg) => Err(msg),
    }
}

/// How connections go out: directly, or through a proxy at a URI, with or
/// without checking its certificates.
#[derive(Debug, Clone, PartialEq, Eq)]
pub enum Proxy {
    Direct,
    Custom { uri: String, verify_certs: bool },
}

/// Checks the proxy settings; the error is the message shown below the URI
/// box.
pub fn validate_proxy(uri: &str, verify_certs: bool) -> (res: Result<Proxy, String>)
    ensures
        match res {
            Ok(Proxy::Direct) => uri@.len() == 0,
            Ok(Proxy::Custom { uri: u, verify_certs: v }) => {
                &&& uri@.len() > 0
                &&& spec_validate_uri(uri@) is Ok
                &&& u@ == uri@
                &&& v == verify_certs
            },
            Err(msg) => uri@.len() > 0 && spec_validate_uri(uri@) == Err::<(), Seq<char>>(msg@),
        },
{
    if uri.unicode_len() == 0 {
        return Ok(Proxy::Direct);
    }
    validate_uri(uri)?;
    Ok(Proxy::Custom { uri: uri.to_string(), verify_certs })
}

} // verus!
