//! Targets in the form that requests are served from, and the decoding of a
//! target message into that form.

use crate::names::NameMap;
use crate::proto::{
    copy_bytes, copy_strings, env_map, header_map, headers_resolve, resolve_env_map,
    resolve_header_map, text_map, texts, XdsAuth, XdsAuthSpec, XdsTarget, XdsTargetSpec,
};
use crate::xds::ParseError;
use vstd::prelude::*;

verus! {

/// The largest port number.
pub const MAX_PORT: u32 = 65535;

/// How the proxy authenticates towards a backend.
#[derive(Clone, Copy, Debug, PartialEq, Eq, Structural)]
pub enum BackendAuthConfig {
    /// The caller's own credentials are handed on.
    Passthrough,
}

/// A target described by an OpenAPI document that has been read.
#[derive(Clone, Debug)]
pub struct OpenAPITarget {
    pub schema: Vec<u8>,
    pub base_url: String,
}

/// The kinds of target.
#[derive(Clone, Debug)]
pub enum TargetSpec {
    Sse {
        host: String,
        port: u32,
        path: String,
        headers: NameMap<String>,
        backend_auth: Option<BackendAuthConfig>,
    },
    Stdio { cmd: String, args: Vec<String>, env: NameMap<String> },
    OpenAPI(OpenAPITarget),
}

/// A named outbound endpoint.
#[derive(Clone, Debug)]
pub struct Target {
    pub name: String,
    pub spec: TargetSpec,
}

/// What a [`TargetSpec`] holds.
pub enum TargetSpecView {
    Sse {
        host: Seq<char>,
        port: u32,
        path: Seq<char>,
        headers: Map<Seq<char>, Seq<char>>,
        backend_auth: Option<BackendAuthConfig>,
    },
    Stdio { cmd: Seq<char>, args: Seq<Seq<char>>, env: Map<Seq<char>, Seq<char>> },
    OpenAPI { schema: Seq<u8>, base_url: Seq<char> },
}

/// What a [`Target`] holds.
pub struct TargetView {
    pub name: Seq<char>,
    pub spec: TargetSpecView,
}

impl View for TargetSpec {
    type V = TargetSpecView;

    open spec fn view(&self) -> TargetSpecView {
        match *self {
            TargetSpec::Sse { host, port, path, headers, backend_auth } => TargetSpecView::Sse {
                host: host@,
                port,
                path: path@,
                headers: text_map(headers@),
                backend_auth,
            },
            TargetSpec::Stdio { cmd, args, env } => TargetSpecView::Stdio {
                cmd: cmd@,
                args: texts(args@),
                env: text_map(env@),
            },
            TargetSpec::OpenAPI(api) => TargetSpecView::OpenAPI {
                schema: api.schema@,
                base_url: api.base_url@,
            },
        }
    }
}

impl View for Target {
    type V = TargetView;

    open spec fn view(&self) -> TargetView {
        TargetView { name: self.name@, spec: self.spec@ }
    }
}

impl TargetSpec {
    /// The mappings hold no key twice, and a port is one that exists.
    pub open spec fn wf(&self) -> bool {
        match *self {
            TargetSpec::Sse { host, port, path, headers, backend_auth } => headers.wf() && 1
                <= port <= MAX_PORT,
            TargetSpec::Stdio { cmd, args, env } => env.wf(),
            TargetSpec::OpenAPI(api) => true,
        }
    }
}

impl Target {
    /// The target has a name and a valid description.
    pub open spec fn wf(&self) -> bool {
        self.name@.len() > 0 && self.spec.wf()
    }
}

/// Whether `bytes` are one JSON document, as `serde_json` reads it. This is
/// all that is asked of the document of an OpenAPI target: that it can be
/// read, not that what it says is a valid description of an interface.
pub uninterp spec fn json_document(bytes: Seq<u8>) -> bool;

/// `serde_json::from_slice` into a `serde_json::Value`: whether the bytes,
/// all of them, parse as one JSON value, nested no deeper than the parser
/// goes. The parser reads nothing but the bytes, so the answer is the same
/// wherever it is asked.
#[verifier::external_body]
fn is_json_document(bytes: &Vec<u8>) -> (ok: bool)
    ensures
        ok == json_document(bytes@),
{
    serde_json::from_slice::<serde_json::Value>(bytes.as_slice()).is_ok()
}

/// The authentication that a message asks for.
pub open spec fn auth_of(auth: Option<XdsAuth>) -> Option<BackendAuthConfig> {
    match auth {
        Some(a) => match a.auth {
            Some(XdsAuthSpec::Passthrough) => Some(BackendAuthConfig::Passthrough),
            None => None,
        },
        None => None,
    }
}

/// What the description of a target decodes to, where `schema_ok` says
/// whether its OpenAPI document could be read.
pub open spec fn decoded_spec(spec: XdsTargetSpec, schema_ok: bool) -> Result<
    TargetSpecView,
    ParseError,
> {
    match spec {
        XdsTargetSpec::Sse(sse) => if sse.port == 0 {
            Err(ParseError::MissingFields)
        } else if sse.port > MAX_PORT || !headers_resolve(sse.headers@) {
            Err(ParseError::InvalidSchema)
        } else {
            Ok(
                TargetSpecView::Sse {
                    host: sse.host@,
                    port: sse.port,
                    path: sse.path@,
                    headers: header_map(sse.headers@),
                    backend_auth: auth_of(sse.auth),
                },
            )
        },
        XdsTargetSpec::Stdio(stdio) => Ok(
            TargetSpecView::Stdio {
                cmd: stdio.cmd@,
                args: texts(stdio.args@),
                env: env_map(stdio.env@),
            },
        ),
        XdsTargetSpec::Openapi(api) => if !schema_ok {
            Err(ParseError::InvalidSchema)
        } else {
            Ok(TargetSpecView::OpenAPI { schema: api.schema@, base_url: api.base_url@ })
        },
    }
}

/// What a target message decodes to, where `schema_ok` says whether its
/// OpenAPI document could be read. A message without a name or without a
/// description misses fields.
pub open spec fn decoded_with(message: XdsTarget, schema_ok: bool) -> Result<
    TargetView,
    ParseError,
> {
    if message.name@.len() == 0 {
        Err(ParseError::MissingFields)
    } else {
        match message.target {
            None => Err(ParseError::MissingFields),
            Some(spec) => match decoded_spec(spec, schema_ok) {
                Ok(spec) => Ok(TargetView { name: message.name@, spec }),
                Err(e) => Err(e),
            },
        }
    }
}

/// The OpenAPI document of a target message; empty where it has none.
pub open spec fn schema_of(message: XdsTarget) -> Seq<u8> {
    match message.target {
        Some(XdsTargetSpec::Openapi(api)) => api.schema@,
        _ => Seq::empty(),
    }
}

/// What a target message decodes to.
pub open spec fn decoded(message: XdsTarget) -> Result<TargetView, ParseError> {
    decoded_with(message, json_document(schema_of(message)))
}

/// The result of decoding, with the target taken by its view.
pub open spec fn outcome(r: Result<Target, ParseError>) -> Result<TargetView, ParseError> {
    match r {
        Ok(target) => Ok(target@),
        Err(e) => Err(e),
    }
}

impl BackendAuthConfig {
    /// Reads the authentication that a message asks for. A message that names
    /// none asks for none.
    pub fn try_from(value: &XdsAuth) -> (r: Result<Option<BackendAuthConfig>, ParseError>)
        ensures
            r == Ok::<Option<BackendAuthConfig>, ParseError>(auth_of(Some(*value))),
    {
        match value.auth {
            Some(XdsAuthSpec::Passthrough) => Ok(Some(BackendAuthConfig::Passthrough)),
            None => Ok(None),
        }
    }
}

impl TargetSpec {
    /// Decodes the description of a target. `schema_ok` says whether its
    /// OpenAPI document could be read; other kinds do not look at it.
    pub fn decode_with(spec: &XdsTargetSpec, schema_ok: bool) -> (r: Result<
        TargetSpec,
        ParseError,
    >)
        ensures
            match r {
                Ok(s) => s.wf() && decoded_spec(*spec, schema_ok) == Ok::<
                    TargetSpecView,
                    ParseError,
                >(s@),
                Err(e) => decoded_spec(*spec, schema_ok) == Err::<TargetSpecView, ParseError>(e),
            },
    {
        match spec {
            XdsTargetSpec::Sse(sse) => {
                if sse.port == 0 {
                    return Err(ParseError::MissingFields);
                }
                if sse.port > MAX_PORT {
                    return Err(ParseError::InvalidSchema);
                }
                let headers = match resolve_header_map(&sse.headers) {
                    Ok(headers) => headers,
                    Err(_) => {
                        return Err(ParseError::InvalidSchema);
                    },
                };
                let backend_auth = match &sse.auth {
                    Some(auth) => match BackendAuthConfig::try_from(auth) {
                        Ok(config) => config,
                        Err(e) => {
                            return Err(e);
                        },
                    },
                    None => None,
                };
                Ok(
                    TargetSpec::Sse {
                        host: sse.host.clone(),
                        port: sse.port,
                        path: sse.path.clone(),
                        headers,
                        backend_auth,
                    },
                )
            },
            XdsTargetSpec::Stdio(stdio) => Ok(
                TargetSpec::Stdio {
                    cmd: stdio.cmd.clone(),
                    args: copy_strings(&stdio.args),
                    env: resolve_env_map(&stdio.env),
                },
            ),
            XdsTargetSpec::Openapi(api) => {
                if !schema_ok {
                    return Err(ParseError::InvalidSchema);
                }
                Ok(
                    TargetSpec::OpenAPI(
                        OpenAPITarget {
                            schema: copy_bytes(&api.schema),
                            base_url: api.base_url.clone(),
                        },
                    ),
                )
            },
        }
    }
}

impl Target {
    /// Decodes a target message. `schema_ok` says whether its OpenAPI
    /// document could be read; other kinds of target do not look at it.
    pub fn decode_with(value: &XdsTarget, schema_ok: bool) -> (r: Result<Target, ParseError>)
        ensures
            outcome(r) == decoded_with(*value, schema_ok),
            r matches Ok(target) ==> target.wf(),
    {
        if value.name.as_str().is_empty() {
            return Err(ParseError::MissingFields);
        }
        match &value.target {
            None => Err(ParseError::MissingFields),
            Some(spec) => match TargetSpec::decode_with(spec, schema_ok) {
                Ok(spec) => Ok(Target { name: value.name.clone(), spec }),
                Err(e) => Err(e),
            },
        }
    }

    /// Decodes a target message, reading its OpenAPI document where it has
    /// one.
    pub fn decode(value: &XdsTarget) -> (r: Result<Target, ParseError>)
        ensures
            outcome(r) == decoded(*value),
            r matches Ok(target) ==> target.wf(),
    {
        let schema_ok = match &value.target {
            Some(XdsTargetSpec::Openapi(api)) => is_json_document(&api.schema),
            _ => false,
        };
        proof {
            lemma_schema_only_for_openapi(*value, schema_ok, json_document(schema_of(*value)));
        }
        Target::decode_with(value, schema_ok)
    }

    /// Decodes a target message that is given up for it.
    pub fn try_from(value: XdsTarget) -> (r: Result<Target, ParseError>)
        ensures
            outcome(r) == decoded(value),
            r matches Ok(target) ==> target.wf(),
    {
        Target::decode(&value)
    }
}

/// A target carries the name of the message that it was decoded from.
pub proof fn lemma_decoded_keeps_name(message: XdsTarget)
    ensures
        decoded(message) matches Ok(target) ==> target.name == message.name@,
{
}

/// Only a target with an OpenAPI document depends on whether that document
/// could be read.
pub proof fn lemma_schema_only_for_openapi(message: XdsTarget, a: bool, b: bool)
    requires
        message.target matches Some(XdsTargetSpec::Openapi(_)) ==> a == b,
    ensures
        decoded_with(message, a) == decoded_with(message, b),
{
}

impl TargetSpec {
    /// A copy of the description.
    pub fn duplicate(&self) -> (copy: TargetSpec)
        requires
            self.wf(),
        ensures
            copy.wf(),
            copy@ == self@,
    {
        match self {
            TargetSpec::Sse { host, port, path, headers, backend_auth } => TargetSpec::Sse {
                host: host.clone(),
                port: *port,
                path: path.clone(),
                headers: headers.duplicate(),
                backend_auth: *backend_auth,
            },
            TargetSpec::Stdio { cmd, args, env } => TargetSpec::Stdio {
                cmd: cmd.clone(),
                args: copy_strings(args),
                env: env.duplicate(),
            },
            TargetSpec::OpenAPI(api) => TargetSpec::OpenAPI(
                OpenAPITarget { schema: copy_bytes(&api.schema), base_url: api.base_url.clone() },
            ),
        }
    }
}

impl Target {
    /// A copy of the target, for work that goes on after the store is let
    /// go of.
    pub fn duplicate(&self) -> (copy: Target)
        requires
            self.wf(),
        ensures
            copy.wf(),
            copy@ == self@,
    {
        Target { name: self.name.clone(), spec: self.spec.duplicate() }
    }
}

} // verus!
