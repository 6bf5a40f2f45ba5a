//! Allow-rules: who may reach which resource. A rule names a resource by
//! kind and name and lists the claims that the caller must carry; a request
//! is permitted where some rule matches both. There is no deny rule.

use crate::names::NameMap;
use crate::proto::{text_map, XdsClaim, XdsRbac, XdsRule};
use crate::xds::ParseError;
use vstd::prelude::*;

verus! {

/// The kinds of resource that a request can reach.
#[derive(Clone, Copy, Debug, PartialEq, Eq, Structural)]
pub enum ResourceKind {
    Tool,
    Prompt,
    Resource,
}

/// What a request reaches: a kind of resource on a target, and the operation
/// asked of it.
#[derive(Clone, Debug)]
pub struct ResourceType {
    pub kind: ResourceKind,
    pub target: String,
    pub operation: String,
}

/// What a [`ResourceType`] holds.
pub struct ResourceTypeView {
    pub kind: ResourceKind,
    pub target: Seq<char>,
    pub operation: Seq<char>,
}

impl View for ResourceType {
    type V = ResourceTypeView;

    open spec fn view(&self) -> ResourceTypeView {
        ResourceTypeView { kind: self.kind, target: self.target@, operation: self.operation@ }
    }
}

impl ResourceType {
    /// A descriptor of the resource `kind` on `target`, for `operation`.
    pub fn new(kind: ResourceKind, target: String, operation: String) -> (r: Self)
        ensures
            r@ == (ResourceTypeView { kind, target: target@, operation: operation@ }),
    {
        ResourceType { kind, target, operation }
    }
}

/// The claims that a caller carries, established when its session began.
#[derive(Clone, Debug)]
pub struct Identity {
    claims: NameMap<String>,
}

impl View for Identity {
    type V = Map<Seq<char>, Seq<char>>;

    closed spec fn view(&self) -> Map<Seq<char>, Seq<char>> {
        text_map(self.claims@)
    }
}

impl Identity {
    /// No claim is held twice.
    pub closed spec fn wf(&self) -> bool {
        self.claims.wf()
    }

    /// An identity without claims.
    pub fn new() -> (id: Self)
        ensures
            id.wf(),
            id@ == Map::<Seq<char>, Seq<char>>::empty(),
    {
        let id = Identity { claims: NameMap::new() };
        assert(id@ =~= Map::<Seq<char>, Seq<char>>::empty());
        id
    }

    /// Sets the claim `key` to `value`.
    pub fn set_claim(&mut self, key: String, value: String)
        requires
            old(self).wf(),
        ensures
            final(self).wf(),
            final(self)@ == old(self)@.insert(key@, value@),
    {
        proof {
            crate::proto::lemma_text_map_insert(self.claims@, key@, value);
        }
        self.claims.insert(key, value);
    }

    /// The value of the claim `key`.
    pub fn get_claim(&self, key: &str) -> (r: Option<&String>)
        requires
            self.wf(),
        ensures
            match r {
                Some(value) => self@.contains_key(key@) && self@[key@] == value@,
                None => !self@.contains_key(key@),
            },
    {
        self.claims.get(key)
    }
}

/// One claim that a rule asks of the caller.
#[derive(Clone, Debug)]
pub struct Claim {
    pub key: String,
    pub value: String,
}

/// One allow-rule.
#[derive(Clone, Debug)]
pub struct Rule {
    pub kind: ResourceKind,
    pub name: String,
    pub claims: Vec<Claim>,
}

/// What a [`Rule`] holds.
pub struct RuleView {
    pub kind: ResourceKind,
    pub name: Seq<char>,
    pub claims: Seq<(Seq<char>, Seq<char>)>,
}

/// A named set of allow-rules, in the order in which the message gave them.
#[derive(Clone, Debug)]
pub struct RuleSet {
    pub name: String,
    pub rules: Vec<Rule>,
}

/// What a [`RuleSet`] holds.
pub struct RuleSetView {
    pub name: Seq<char>,
    pub rules: Seq<RuleView>,
}

/// The key and value of each claim of a list.
pub open spec fn claim_pairs(claims: Seq<Claim>) -> Seq<(Seq<char>, Seq<char>)> {
    claims.map_values(|c: Claim| (c.key@, c.value@))
}

impl View for Rule {
    type V = RuleView;

    open spec fn view(&self) -> RuleView {
        RuleView { kind: self.kind, name: self.name@, claims: claim_pairs(self.claims@) }
    }
}

/// The view of each rule of a list.
pub open spec fn rule_views(rules: Seq<Rule>) -> Seq<RuleView> {
    rules.map_values(|r: Rule| r@)
}

impl View for RuleSet {
    type V = RuleSetView;

    open spec fn view(&self) -> RuleSetView {
        RuleSetView { name: self.name@, rules: rule_views(self.rules@) }
    }
}

/// The caller carries every claim of the list, each with the value asked.
pub open spec fn claims_held(
    claims: Seq<(Seq<char>, Seq<char>)>,
    identity: Map<Seq<char>, Seq<char>>,
) -> bool {
    forall|i: int|
        0 <= i < claims.len() ==> identity.contains_key((#[trigger] claims[i]).0)
            && identity[claims[i].0] == claims[i].1
}

/// The rule speaks of this resource and the caller carries its claims.
pub open spec fn rule_matches(
    rule: RuleView,
    resource: ResourceTypeView,
    identity: Map<Seq<char>, Seq<char>>,
) -> bool {
    rule.kind == resource.kind && rule.name == resource.target && claims_held(
        rule.claims,
        identity,
    )
}

/// Some rule of the list matches.
pub open spec fn rules_permit(
    rules: Seq<RuleView>,
    resource: ResourceTypeView,
    identity: Map<Seq<char>, Seq<char>>,
) -> bool {
    exists|i: int| 0 <= i < rules.len() && rule_matches(#[trigger] rules[i], resource, identity)
}

/// The kind of resource that a number on the wire stands for.
pub open spec fn kind_of(number: u32) -> Option<ResourceKind> {
    if number == 0 {
        Some(ResourceKind::Tool)
    } else if number == 1 {
        Some(ResourceKind::Prompt)
    } else if number == 2 {
        Some(ResourceKind::Resource)
    } else {
        None
    }
}

/// The key and value of each claim of a message.
pub open spec fn wire_claim_pairs(claims: Seq<XdsClaim>) -> Seq<(Seq<char>, Seq<char>)> {
    claims.map_values(|c: XdsClaim| (c.key@, c.value@))
}

/// What one rule of a message decodes to. A rule without a resource, or with
/// a resource without a name, misses fields; a kind that does not exist is
/// invalid.
pub open spec fn decoded_rule(rule: XdsRule) -> Result<RuleView, ParseError> {
    match rule.resource {
        None => Err(ParseError::MissingFields),
        Some(resource) => if resource.name@.len() == 0 {
            Err(ParseError::MissingFields)
        } else {
            match kind_of(resource.kind) {
                None => Err(ParseError::InvalidSchema),
                Some(kind) => Ok(
                    RuleView { kind, name: resource.name@, claims: wire_claim_pairs(rule.claims@) },
                ),
            }
        },
    }
}

/// What the rules of a message decode to: all of them in order, or the error
/// of the first that does not decode.
pub open spec fn decoded_rules(rules: Seq<XdsRule>) -> Result<Seq<RuleView>, ParseError>
    decreases rules.len(),
{
    if rules.len() == 0 {
        Ok(Seq::empty())
    } else {
        match decoded_rules(rules.drop_last()) {
            Err(e) => Err(e),
            Ok(before) => match decoded_rule(rules.last()) {
                Err(e) => Err(e),
                Ok(rule) => Ok(before.push(rule)),
            },
        }
    }
}

/// What a rule-set message decodes to. A message without a name misses
/// fields.
pub open spec fn decoded(message: XdsRbac) -> Result<RuleSetView, ParseError> {
    if message.name@.len() == 0 {
        Err(ParseError::MissingFields)
    } else {
        match decoded_rules(message.rules@) {
            Err(e) => Err(e),
            Ok(rules) => Ok(RuleSetView { name: message.name@, rules }),
        }
    }
}

/// The result of decoding, with the rule set taken by its view.
pub open spec fn outcome(r: Result<RuleSet, ParseError>) -> Result<RuleSetView, ParseError> {
    match r {
        Ok(rules) => Ok(rules@),
        Err(e) => Err(e),
    }
}

/// Reads the kind of resource from its number on the wire.
pub fn kind_from_wire(number: u32) -> (r: Option<ResourceKind>)
    ensures
        r == kind_of(number),
{
    if number == 0 {
        Some(ResourceKind::Tool)
    } else if number == 1 {
        Some(ResourceKind::Prompt)
    } else if number == 2 {
        Some(ResourceKind::Resource)
    } else {
        None
    }
}

/// Copies the claims of a message.
fn copy_claims(claims: &Vec<XdsClaim>) -> (out: Vec<Claim>)
    ensures
        claim_pairs(out@) == wire_claim_pairs(claims@),
{
    let mut out: Vec<Claim> = Vec::new();
    let mut i: usize = 0;
    while i < claims.len()
        invariant
            i <= claims@.len(),
            out@.len() == i,
            forall|j: int|
                0 <= j < i ==> (#[trigger] out@[j]).key@ == claims@[j].key@ && out@[j].value@
                    == claims@[j].value@,
        decreases claims@.len() - i,
    {
        out.push(Claim { key: claims[i].key.clone(), value: claims[i].value.clone() });
        i += 1;
    }
    assert(claim_pairs(out@) =~= wire_claim_pairs(claims@));
    out
}

impl Rule {
    /// Decodes one rule of a message.
    pub fn try_from(rule: &XdsRule) -> (r: Result<Rule, ParseError>)
        ensures
            match r {
                Ok(decoded) => decoded_rule(*rule) == Ok::<RuleView, ParseError>(decoded@),
                Err(e) => decoded_rule(*rule) == Err::<RuleView, ParseError>(e),
            },
    {
        match &rule.resource {
            None => Err(ParseError::MissingFields),
            Some(resource) => {
                if resource.name.as_str().is_empty() {
                    return Err(ParseError::MissingFields);
                }
                match kind_from_wire(resource.kind) {
                    None => Err(ParseError::InvalidSchema),
                    Some(kind) => Ok(
                        Rule {
                            kind,
                            name: resource.name.clone(),
                            claims: copy_claims(&rule.claims),
                        },
                    ),
                }
            },
        }
    }

    /// Whether the rule speaks of `resource` and `claims` carries what it
    /// asks.
    pub fn matches(&self, resource: &ResourceType, claims: &Identity) -> (b: bool)
        requires
            claims.wf(),
        ensures
            b == rule_matches(self@, resource@, claims@),
    {
        if !(self.kind == resource.kind && self.name == resource.target) {
            return false;
        }
        let mut i: usize = 0;
        while i < self.claims.len()
            invariant
                i <= self.claims@.len(),
                claims.wf(),
                claims_held(claim_pairs(self.claims@).take(i as int), claims@),
            decreases self.claims@.len() - i,
        {
            let wanted = &self.claims[i];
            let held = match claims.get_claim(wanted.key.as_str()) {
                Some(value) => *value == wanted.value,
                None => false,
            };
            if !held {
                proof {
                    let pairs = claim_pairs(self.claims@);
                    assert(pairs[i as int] == (wanted.key@, wanted.value@));
                }
                return false;
            }
            proof {
                let pairs = claim_pairs(self.claims@);
                assert forall|j: int| 0 <= j < i + 1 implies claims@.contains_key(
                    (#[trigger] pairs.take(i + 1)[j]).0,
                ) && claims@[pairs.take(i + 1)[j].0] == pairs.take(i + 1)[j].1 by {
                    if j < i {
                        assert(pairs.take(i as int)[j] == pairs.take(i + 1)[j]);
                    }
                }
            }
            i += 1;
        }
        proof {
            assert(claim_pairs(self.claims@).take(i as int) =~= claim_pairs(self.claims@));
        }
        true
    }
}

impl RuleSet {
    /// Decodes a rule-set message.
    pub fn try_from(value: &XdsRbac) -> (r: Result<RuleSet, ParseError>)
        ensures
            outcome(r) == decoded(*value),
    {
        if value.name.as_str().is_empty() {
            return Err(ParseError::MissingFields);
        }
        let mut rules: Vec<Rule> = Vec::new();
        let mut i: usize = 0;
        proof {
            assert(rule_views(rules@) =~= Seq::<RuleView>::empty());
        }
        while i < value.rules.len()
            invariant
                i <= value.rules@.len(),
                value.name@.len() > 0,
                decoded_rules(value.rules@.take(i as int)) == Ok::<Seq<RuleView>, ParseError>(
                    rule_views(rules@),
                ),
            decreases value.rules@.len() - i,
        {
            proof {
                let next = value.rules@.take(i + 1);
                assert(next.drop_last() =~= value.rules@.take(i as int));
                assert(next.last() == value.rules@[i as int]);
            }
            match Rule::try_from(&value.rules[i]) {
                Ok(rule) => {
                    proof {
                        assert(rule_views(rules@.push(rule)) =~= rule_views(rules@).push(rule@));
                    }
                    rules.push(rule);
                },
                Err(e) => {
                    proof {
                        let next = value.rules@.take(i + 1);
                        assert(decoded_rules(next) == Err::<Seq<RuleView>, ParseError>(e));
                        lemma_error_stays(value.rules@, i + 1);
                    }
                    return Err(e);
                },
            }
            i += 1;
        }
        proof {
            assert(value.rules@.take(i as int) =~= value.rules@);
        }
        Ok(RuleSet { name: value.name.clone(), rules })
    }

    /// Whether some rule of the set permits `claims` to reach `resource`.
    pub fn validate(&self, resource: &ResourceType, claims: &Identity) -> (b: bool)
        requires
            claims.wf(),
        ensures
            b == rules_permit(self@.rules, resource@, claims@),
    {
        let mut i: usize = 0;
        while i < self.rules.len()
            invariant
                i <= self.rules@.len(),
                claims.wf(),
                !rules_permit(rule_views(self.rules@).take(i as int), resource@, claims@),
            decreases self.rules@.len() - i,
        {
            if self.rules[i].matches(resource, claims) {
                proof {
                    assert(rule_views(self.rules@)[i as int] == self.rules@[i as int]@);
                }
                return true;
            }
            proof {
                let views = rule_views(self.rules@);
                assert forall|j: int| 0 <= j < i + 1 implies !rule_matches(
                    #[trigger] views.take(i + 1)[j],
                    resource@,
                    claims@,
                ) by {
                    if j < i {
                        assert(views.take(i as int)[j] == views.take(i + 1)[j]);
                    }
                }
            }
            i += 1;
        }
        proof {
            assert(rule_views(self.rules@).take(i as int) =~= rule_views(self.rules@));
        }
        false
    }
}

/// Once a prefix of the rules fails to decode, every longer prefix fails
/// with the same error.
pub proof fn lemma_error_stays(rules: Seq<XdsRule>, n: int)
    requires
        0 <= n <= rules.len(),
        decoded_rules(rules.take(n)) is Err,
    ensures
        decoded_rules(rules) == decoded_rules(rules.take(n)),
    decreases rules.len() - n,
{
    if n < rules.len() {
        let next = rules.take(n + 1);
        assert(next.drop_last() =~= rules.take(n));
        lemma_error_stays(rules, n + 1);
    } else {
        assert(rules.take(n) =~= rules);
    }
}

} // verus!
