//! Trusted bindings to functions of std and of outside crates whose behaviour
//! the library uses but does not reimplement.
use vstd::prelude::*;

verus! {

/// What `str::to_lowercase` returns for a string (full Unicode case mapping).
pub uninterp spec fn unicode_lowercase(s: Seq<char>) -> Seq<char>;

/// `str::to_lowercase`: the contract only names the result; Unicode case
/// mapping is left to std.
#[verifier::external_body]
pub(crate) fn to_lowercase(s: &str) -> (r: String)
    ensures
        r@ == unicode_lowercase(s@),
{
    s.to_lowercase()
}

} // verus!

verus! {

/// What `serde_json::from_str::<serde_json::Value>` yields for a text, one
/// level deep (None when the text is not JSON).
pub uninterp spec fn json_node(text: Seq<char>) -> Option<crate::json::JsonNodeV>;

/// `serde_json::from_str::<serde_json::Value>`: the result is named
/// (`json_node`); JSON syntax is left to serde_json. The value is converted
/// one level deep: a string's contents; otherwise the compact text
/// (`Value::to_string`), with the compact texts of an array's elements or of
/// an object's member values.
#[verifier::external_body]
pub(crate) fn parse_json_node(text: &str) -> (r: Option<crate::json::JsonNode>)
    ensures
        r matches Some(n) ==> json_node(text@) == Some(n@),
        r is None ==> json_node(text@) is None,
{
    let v: serde_json::Value = serde_json::from_str(text).ok()?;
    let compact = v.to_string();
    Some(match v {
        serde_json::Value::String(s) => crate::json::JsonNode::Str(s),
        serde_json::Value::Array(a) => crate::json::JsonNode::Array(a.iter().map(|e| e.to_string()).collect(), compact),
        serde_json::Value::Object(m) => crate::json::JsonNode::Object(m.iter().map(|(k, e)| (k.clone(), e.to_string())).collect(), compact),
        _ => crate::json::JsonNode::Scalar(compact),
    })
}


/// What `serde_json::to_string_pretty` prints for the value that
/// `serde_json::from_str::<serde_json::Value>` reads from a text (None when
/// the text is not JSON).
pub uninterp spec fn json_pretty(text: Seq<char>) -> Option<Seq<char>>;

/// `serde_json::from_str::<serde_json::Value>` followed by
/// `serde_json::to_string_pretty`: the result is named (`json_pretty`); the
/// layout is left to serde_json.
#[verifier::external_body]
pub(crate) fn pretty_json(text: &str) -> (r: Option<String>)
    ensures
        r matches Some(p) ==> json_pretty(text@) == Some(p@),
        r is None ==> json_pretty(text@) is None,
{
    let v: serde_json::Value = serde_json::from_str(text).ok()?;
    serde_json::to_string_pretty(&v).ok()
}


/// Whether `s` is what `uuid::Uuid::to_string` prints: 36 characters,
/// hyphens at 8, 13, 18 and 23, the version digit `4` at 14, lowercase
/// hexadecimal digits elsewhere.
pub open spec fn uuid_shaped(s: Seq<char>) -> bool {
    &&& s.len() == 36
    &&& forall|i: int|
        0 <= i < 36 ==> if i == 8 || i == 13 || i == 18 || i == 23 {
            #[trigger] s[i] == '-'
        } else {
            ('0' <= s[i] && s[i] <= '9') || ('a' <= s[i] && s[i] <= 'f')
        }
    &&& s[14] == '4'
}

/// `uuid::Uuid::new_v4().to_string()`: a random version-4 UUID in hyphenated
/// lowercase form. Only its shape is stated; the value is random.
#[verifier::external_body]
pub(crate) fn new_uuid_v4() -> (r: String)
    ensures
        uuid_shaped(r@),
{
    uuid::Uuid::new_v4().to_string()
}

#[verifier::external_type_specification]
#[verifier::external_body]
pub struct ExSystemTime(std::time::SystemTime);

/// `std::time::SystemTime::now`: the wall clock. Nothing is stated of it.
#[verifier::external_body]
pub(crate) fn system_time_now() -> std::time::SystemTime {
    std::time::SystemTime::now()
}

/// `SystemTime::duration_since(UNIX_EPOCH)` in whole seconds; None when the
/// time lies before the epoch. Nothing is stated of the value.
#[verifier::external_body]
pub(crate) fn unix_seconds(t: &std::time::SystemTime) -> Option<u64> {
    match t.duration_since(std::time::UNIX_EPOCH) {
        Ok(d) => Some(d.as_secs()),
        Err(_) => None,
    }
}

} // verus!

verus! {

/// The parts of a parsed URL the client reads: scheme, host, path, and the
/// normalized serialization.
#[derive(Debug)]
pub struct UrlParts {
    pub scheme: String,
    pub host: Option<String>,
    pub path: String,
    pub serialized: String,
}

pub struct UrlPartsV {
    pub scheme: Seq<char>,
    pub host: Option<Seq<char>>,
    pub path: Seq<char>,
    pub serialized: Seq<char>,
}

impl View for UrlParts {
    type V = UrlPartsV;

    open spec fn view(&self) -> UrlPartsV {
        UrlPartsV {
            scheme: self.scheme@,
            host: self.host.deep_view(),
            path: self.path@,
            serialized: self.serialized@,
        }
    }
}

/// What `url::Url::parse` yields for a text (scheme, `host_str`, `path`,
/// `as_str`), None when it is no absolute URL.
pub uninterp spec fn url_parsed(text: Seq<char>) -> Option<UrlPartsV>;

/// What `url::Url::parse(base)` and then `Url::join(location)` yield.
pub uninterp spec fn url_joined(base: Seq<char>, location: Seq<char>) -> Option<UrlPartsV>;

/// `url::Url::parse`: the result is named (`url_parsed`); URL syntax is
/// left to the url crate.
#[verifier::external_body]
pub(crate) fn parse_url(text: &str) -> (r: Option<UrlParts>)
    ensures
        r matches Some(p) ==> url_parsed(text@) == Some(p@),
        r is None ==> url_parsed(text@) is None,
{
    match url::Url::parse(text) {
        Ok(u) => Some(UrlParts {
            scheme: u.scheme().to_string(),
            host: u.host_str().map(str::to_string),
            path: u.path().to_string(),
            serialized: u.as_str().to_string(),
        }),
        Err(_) => None,
    }
}

/// `url::Url::join` on the parse of `base`: the result is named
/// (`url_joined`); reference resolution is left to the url crate.
#[verifier::external_body]
pub(crate) fn join_url(base: &str, location: &str) -> (r: Option<UrlParts>)
    ensures
        r matches Some(p) ==> url_joined(base@, location@) == Some(p@),
        r is None ==> url_joined(base@, location@) is None,
{
    let joined = match url::Url::parse(base) {
        Ok(b) => b.join(location),
        Err(e) => Err(e),
    };
    match joined {
        Ok(u) => Some(UrlParts {
            scheme: u.scheme().to_string(),
            host: u.host_str().map(str::to_string),
            path: u.path().to_string(),
            serialized: u.as_str().to_string(),
        }),
        Err(_) => None,
    }
}

} // verus!
