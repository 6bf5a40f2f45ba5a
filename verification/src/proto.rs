//! The configuration messages as the control plane sends them: a target, a
//! rule set, and their parts. The stores keep these values as they came and
//! decode them into the forms that requests are served from.

use crate::names::NameMap;
use vstd::prelude::*;

verus! {

/// Where the value of a header comes from.
#[derive(Clone, Debug, PartialEq, Eq)]
pub enum HeaderValue {
    /// The value itself.
    StringValue(String),
    /// A variable of the environment: its name as the message gave it, and
    /// beside it what the environment held under that name when the message
    /// came in, absent where it held nothing.
    EnvValue { name: String, found: Option<String> },
}

/// One header of an SSE target. `value` is absent where the message named
/// none.
#[derive(Clone, Debug, PartialEq, Eq)]
pub struct Header {
    pub key: String,
    pub value: Option<HeaderValue>,
}

/// How the proxy authenticates towards a backend.
#[derive(Clone, Copy, Debug, PartialEq, Eq, Structural)]
pub enum XdsAuthSpec {
    Passthrough,
}

/// The authentication part of an SSE target.
#[derive(Clone, Debug, PartialEq, Eq)]
pub struct XdsAuth {
    pub auth: Option<XdsAuthSpec>,
}

/// A target reached over server-sent events.
#[derive(Clone, Debug, PartialEq, Eq)]
pub struct XdsSse {
    pub host: String,
    pub port: u32,
    pub path: String,
    pub headers: Vec<Header>,
    pub auth: Option<XdsAuth>,
}

/// One variable of the environment of a child process.
#[derive(Clone, Debug, PartialEq, Eq)]
pub struct EnvVar {
    pub key: String,
    pub value: String,
}

/// A target that is a child process, spoken to over its standard streams.
#[derive(Clone, Debug, PartialEq, Eq)]
pub struct XdsStdio {
    pub cmd: String,
    pub args: Vec<String>,
    pub env: Vec<EnvVar>,
}

/// A target described by an OpenAPI document.
#[derive(Clone, Debug, PartialEq, Eq)]
pub struct XdsOpenApi {
    pub base_url: String,
    pub schema: Vec<u8>,
}

/// The kinds of target.
#[derive(Clone, Debug, PartialEq, Eq)]
pub enum XdsTargetSpec {
    Sse(XdsSse),
    Stdio(XdsStdio),
    Openapi(XdsOpenApi),
}

/// A named target.
#[derive(Clone, Debug, PartialEq, Eq)]
pub struct XdsTarget {
    pub name: String,
    pub target: Option<XdsTargetSpec>,
}

/// One claim that a rule asks of the caller.
#[derive(Clone, Debug, PartialEq, Eq)]
pub struct XdsClaim {
    pub key: String,
    pub value: String,
}

/// The resource that a rule speaks of. `kind` is the number of the kind on
/// the wire: 0 a tool, 1 a prompt, 2 a resource.
#[derive(Clone, Debug, PartialEq, Eq)]
pub struct XdsResource {
    pub kind: u32,
    pub name: String,
}

/// One allow-rule.
#[derive(Clone, Debug, PartialEq, Eq)]
pub struct XdsRule {
    pub resource: Option<XdsResource>,
    pub claims: Vec<XdsClaim>,
}

/// A named set of allow-rules.
#[derive(Clone, Debug, PartialEq, Eq)]
pub struct XdsRbac {
    pub name: String,
    pub rules: Vec<XdsRule>,
}

/// The characters of each string of a list.
pub open spec fn texts(strings: Seq<String>) -> Seq<Seq<char>> {
    strings.map_values(|s: String| s@)
}

/// The characters of each value of a map of strings.
pub open spec fn text_map(m: Map<Seq<char>, String>) -> Map<Seq<char>, Seq<char>> {
    m.map_values(|s: String| s@)
}

/// The value that a header resolves to: the value that it gives, or what
/// the environment held under the name that it gives. A header that gives
/// neither, or names a variable that the environment did not hold, resolves
/// to nothing.
pub open spec fn resolved(header: Header) -> Option<Seq<char>> {
    match header.value {
        Some(HeaderValue::StringValue(text)) => Some(text@),
        Some(HeaderValue::EnvValue { name, found: Some(text) }) => Some(text@),
        Some(HeaderValue::EnvValue { name, found: None }) => None,
        None => None,
    }
}

/// Every header resolves to a value.
pub open spec fn headers_resolve(headers: Seq<Header>) -> bool {
    forall|i: int| 0 <= i < headers.len() ==> resolved(#[trigger] headers[i]) is Some
}

/// The mapping that a list of headers stands for: where a key occurs more
/// than once, the last occurrence gives the value.
pub open spec fn header_map(headers: Seq<Header>) -> Map<Seq<char>, Seq<char>>
    decreases headers.len(),
{
    if headers.len() == 0 {
        Map::empty()
    } else {
        header_map(headers.drop_last()).insert(
            headers.last().key@,
            resolved(headers.last()).unwrap(),
        )
    }
}

/// The mapping that a list of variables stands for: where a key occurs more
/// than once, the last occurrence gives the value.
pub open spec fn env_map(vars: Seq<EnvVar>) -> Map<Seq<char>, Seq<char>>
    decreases vars.len(),
{
    if vars.len() == 0 {
        Map::empty()
    } else {
        env_map(vars.drop_last()).insert(vars.last().key@, vars.last().value@)
    }
}

/// A header that resolves to no value.
#[derive(Clone, Copy, Debug, PartialEq, Eq, Structural)]
pub struct InvalidHeader {
    /// The position of the first such header.
    pub index: usize,
}

/// Putting a string under a name puts its characters under it.
pub proof fn lemma_text_map_insert(m: Map<Seq<char>, String>, key: Seq<char>, value: String)
    ensures
        text_map(m.insert(key, value)) == text_map(m).insert(key, value@),
{
    assert(text_map(m.insert(key, value)) =~= text_map(m).insert(key, value@));
}

/// The value that a header resolves to.
pub fn resolve_header(header: &Header) -> (r: Option<String>)
    ensures
        match r {
            Some(text) => resolved(*header) == Some(text@),
            None => resolved(*header) is None,
        },
{
    match &header.value {
        Some(HeaderValue::StringValue(text)) => Some(text.clone()),
        Some(HeaderValue::EnvValue { name, found: Some(text) }) => Some(text.clone()),
        Some(HeaderValue::EnvValue { name, found: None }) => None,
        None => None,
    }
}

/// Turns a list of headers into a mapping from key to value. Fails at the
/// first header that resolves to no value.
pub fn resolve_header_map(headers: &Vec<Header>) -> (r: Result<NameMap<String>, InvalidHeader>)
    ensures
        match r {
            Ok(m) => headers_resolve(headers@) && m.wf() && text_map(m@) == header_map(
                headers@,
            ),
            Err(e) => e.index < headers@.len() && resolved(headers@[e.index as int]) is None
                && headers_resolve(headers@.take(e.index as int)),
        },
{
    let mut map: NameMap<String> = NameMap::new();
    let mut i: usize = 0;
    proof {
        assert(text_map(map@) =~= header_map(headers@.take(0)));
    }
    while i < headers.len()
        invariant
            i <= headers@.len(),
            map.wf(),
            headers_resolve(headers@.take(i as int)),
            text_map(map@) == header_map(headers@.take(i as int)),
        decreases headers@.len() - i,
    {
        let header = &headers[i];
        match resolve_header(header) {
            Some(value) => {
                proof {
                    let next = headers@.take(i + 1);
                    assert(next.drop_last() =~= headers@.take(i as int));
                    assert(next.last() == headers@[i as int]);
                    lemma_text_map_insert(map@, header.key@, value);
                    assert forall|j: int| 0 <= j < next.len() implies resolved(
                        #[trigger] next[j],
                    ) is Some by {
                        if j < i {
                            assert(headers@.take(i as int)[j] == next[j]);
                        }
                    }
                }
                map.insert(header.key.clone(), value);
            },
            None => {
                return Err(InvalidHeader { index: i });
            },
        }
        i += 1;
    }
    proof {
        assert(headers@.take(i as int) =~= headers@);
    }
    Ok(map)
}

/// Turns a list of variables into a mapping from key to value.
pub fn resolve_env_map(vars: &Vec<EnvVar>) -> (m: NameMap<String>)
    ensures
        m.wf(),
        text_map(m@) == env_map(vars@),
{
    let mut resolved: NameMap<String> = NameMap::new();
    let mut i: usize = 0;
    proof {
        assert(text_map(resolved@) =~= env_map(vars@.take(0)));
    }
    while i < vars.len()
        invariant
            i <= vars@.len(),
            resolved.wf(),
            text_map(resolved@) == env_map(vars@.take(i as int)),
        decreases vars@.len() - i,
    {
        let var = &vars[i];
        proof {
            let next = vars@.take(i + 1);
            assert(next.drop_last() =~= vars@.take(i as int));
            assert(next.last() == vars@[i as int]);
            lemma_text_map_insert(resolved@, var.key@, var.value);
        }
        resolved.insert(var.key.clone(), var.value.clone());
        i += 1;
    }
    proof {
        assert(vars@.take(i as int) =~= vars@);
    }
    resolved
}

/// Copies a list of strings.
pub fn copy_strings(strings: &Vec<String>) -> (out: Vec<String>)
    ensures
        out@ == strings@,
{
    let mut out: Vec<String> = Vec::new();
    let mut i: usize = 0;
    while i < strings.len()
        invariant
            i <= strings@.len(),
            out@ == strings@.take(i as int),
        decreases strings@.len() - i,
    {
        out.push(strings[i].clone());
        proof {
            assert(strings@.take(i + 1) =~= strings@.take(i as int).push(strings@[i as int]));
        }
        i += 1;
    }
    proof {
        assert(strings@.take(i as int) =~= strings@);
    }
    out
}

/// Copies a run of bytes.
pub fn copy_bytes(bytes: &Vec<u8>) -> (out: Vec<u8>)
    ensures
        out@ == bytes@,
{
    let mut out: Vec<u8> = Vec::new();
    let mut i: usize = 0;
    while i < bytes.len()
        invariant
            i <= bytes@.len(),
            out@ == bytes@.take(i as int),
        decreases bytes@.len() - i,
    {
        out.push(bytes[i]);
        proof {
            assert(bytes@.take(i + 1) =~= bytes@.take(i as int).push(bytes@[i as int]));
        }
        i += 1;
    }
    proof {
        assert(bytes@.take(i as int) =~= bytes@);
    }
    out
}

} // verus!
