//! The resource types that the proxy subscribes to, and the updates and
//! rejections that pass between the client and the stores.

use crate::xds::ParseError;
use vstd::prelude::*;
use vstd::string::StringExecFns;

verus! {

/// The type URL of targets.
pub const TARGET_TYPE: &'static str = "type.googleapis.com/mcpproxy.dev.target.Target";

/// The type URL of rule sets.
pub const RBAC_TYPE: &'static str = "type.googleapis.com/mcpproxy.dev.rbac.Config";

/// A resource as the control plane names it, with its decoded message.
#[derive(Clone, Debug)]
pub struct XdsResource<T> {
    pub name: String,
    pub resource: T,
}

/// One change of a batch.
#[derive(Clone, Debug)]
pub enum XdsUpdate<T> {
    /// The resource is new or has changed.
    Update(XdsResource<T>),
    /// The resource of this name is gone.
    Remove(String),
}

impl<T> XdsUpdate<T> {
    /// The name of the resource that the change speaks of.
    pub open spec fn spec_name(&self) -> Seq<char> {
        match *self {
            XdsUpdate::Update(r) => r.name@,
            XdsUpdate::Remove(name) => name@,
        }
    }

    /// The name of the resource that the change speaks of.
    pub fn name(&self) -> (name: String)
        ensures
            name@ == self.spec_name(),
    {
        match self {
            XdsUpdate::Update(r) => r.name.clone(),
            XdsUpdate::Remove(name) => name.clone(),
        }
    }
}

/// A resource that a store did not take, and why.
#[derive(Clone, Debug)]
pub struct RejectedConfig {
    pub name: String,
    pub reason: ParseError,
}

impl View for RejectedConfig {
    type V = (Seq<char>, ParseError);

    open spec fn view(&self) -> (Seq<char>, ParseError) {
        (self.name@, self.reason)
    }
}

/// The reason in words.
pub open spec fn reason_text(reason: ParseError) -> Seq<char> {
    match reason {
        ParseError::MissingFields => "missing fields"@,
        ParseError::InvalidSchema => "invalid schema"@,
    }
}

/// A rejection in words: the name, a colon and a space, and the reason.
pub open spec fn rejection_text(rejection: (Seq<char>, ParseError)) -> Seq<char> {
    rejection.0 + ": "@ + reason_text(rejection.1)
}

impl RejectedConfig {
    /// The rejection of `name` for `reason`.
    pub fn new(name: String, reason: ParseError) -> (r: Self)
        ensures
            r@ == (name@, reason),
    {
        RejectedConfig { name, reason }
    }

    /// The rejection in words.
    pub fn describe(&self) -> (text: String)
        ensures
            text@ == rejection_text(self@),
    {
        let mut text = self.name.clone();
        text.append(": ");
        text.append(self.reason.message());
        text
    }
}

/// The view of each rejection of a list.
pub open spec fn rejection_views(rejections: Seq<RejectedConfig>) -> Seq<(Seq<char>, ParseError)> {
    rejections.map_values(|r: RejectedConfig| r@)
}

} // verus!
