use vstd::prelude::*;

use crate::balancing_algorithms::{AlgorithmType, BalancingAlgorithm};
use crate::dispatch::{install_policy, is_fresh, was_reset, Policy, Registry};
use crate::metrics::Metrics;
use crate::text::{ends_with, has_suffix, text_equals};
use crate::Worker;

verus! {

/// What the decoded fields of a URL-form-encoded query string are, or `None`
/// where the query cannot be decoded into name/value pairs.
pub uninterp spec fn form_fields(query: Seq<char>) -> Option<Seq<(Seq<char>, Seq<char>)>>;

/// The views of a list of name/value pairs.
pub open spec fn field_views(fields: Seq<(String, String)>) -> Seq<(Seq<char>, Seq<char>)> {
    fields.map_values(|f: (String, String)| (f.0@, f.1@))
}

/// serde_urlencoded's decoding error, carried as an opaque value.
#[verifier::external_type_specification]
#[verifier::external_body]
pub struct ExFormError(serde_urlencoded::de::Error);

/// Relies on serde_urlencoded::from_str, read as a list of string pairs: it
/// decodes `query` into its name/value pairs, in order, and its outcome
/// depends on `query` alone.
#[verifier::external_body]
fn decode_form(query: &str) -> (r: Result<Vec<(String, String)>, serde_urlencoded::de::Error>)
    ensures
        match r {
            Ok(fields) => form_fields(query@) == Some(field_views(fields@)),
            Err(_) => form_fields(query@).is_none(),
        },
{
    serde_urlencoded::from_str::<Vec<(String, String)>>(query)
}

/// The path suffix that marks a control-plane request.
pub open spec fn control_suffix() -> Seq<char> {
    "change_algorithm"@
}

/// The name of the query parameter that selects a policy.
pub open spec fn algo_type_name() -> Seq<char> {
    "algo_type"@
}

/// The values given to the `algo_type` parameter among `fields`, in order.
pub open spec fn algo_type_values(fields: Seq<(Seq<char>, Seq<char>)>) -> Seq<Seq<char>>
    decreases fields.len(),
{
    if fields.len() == 0 {
        Seq::empty()
    } else {
        let rest = algo_type_values(fields.drop_last());
        if fields.last().0 == algo_type_name() {
            rest.push(fields.last().1)
        } else {
            rest
        }
    }
}

/// The policy kind that a value of `algo_type` names.
pub open spec fn kind_named(value: Seq<char>) -> Option<AlgorithmType> {
    if value == "round_robin"@ {
        Some(AlgorithmType::RoundRobin)
    } else if value == "least_connections"@ {
        Some(AlgorithmType::LeastConnections)
    } else {
        None
    }
}

/// The kind that decoded fields ask for: `algo_type` must be given exactly
/// once, with a recognised value; other parameters are ignored.
pub open spec fn requested_kind(fields: Seq<(Seq<char>, Seq<char>)>) -> Option<AlgorithmType> {
    let values = algo_type_values(fields);
    if values.len() == 1 {
        kind_named(values[0])
    } else {
        None
    }
}

/// The kind that a whole query string asks for.
pub open spec fn query_kind(query: Seq<char>) -> Option<AlgorithmType> {
    match form_fields(query) {
        Some(fields) => requested_kind(fields),
        None => None,
    }
}

/// Whether a request path addresses the control plane.
pub fn is_control_path(path: &str) -> (r: bool)
    ensures
        r == ends_with(path@, control_suffix()),
{
    has_suffix(path, "change_algorithm")
}

/// The policy kind named by a value of `algo_type`.
pub fn kind_from_name(value: &str) -> (r: Option<AlgorithmType>)
    ensures
        r == kind_named(value@),
{
    if text_equals(value, "round_robin") {
        Some(AlgorithmType::RoundRobin)
    } else if text_equals(value, "least_connections") {
        Some(AlgorithmType::LeastConnections)
    } else {
        None
    }
}

/// The policy kind that decoded query fields ask for.
pub fn requested_algorithm(fields: &Vec<(String, String)>) -> (r: Option<AlgorithmType>)
    ensures
        r == requested_kind(field_views(fields@)),
{
    let ghost views = field_views(fields@);
    let mut count: usize = 0;
    let mut last: Option<AlgorithmType> = None;
    let mut i: usize = 0;
    while i < fields.len()
        invariant
            views == field_views(fields@),
            i <= fields@.len(),
            count == algo_type_values(views.subrange(0, i as int)).len(),
            count > 0 ==> last == kind_named(
                algo_type_values(views.subrange(0, i as int)).last(),
            ),
            count <= i,
        decreases fields@.len() - i,
    {
        proof {
            assert(views.subrange(0, i + 1).drop_last() =~= views.subrange(0, i as int));
            assert(views.subrange(0, i + 1).last() == views[i as int]);
        }
        if text_equals(fields[i].0.as_str(), "algo_type") {
            count = count + 1;
            last = kind_from_name(fields[i].1.as_str());
        }
        i = i + 1;
    }
    proof {
        assert(views.subrange(0, fields@.len() as int) =~= views);
    }
    if count == 1 {
        last
    } else {
        None
    }
}

/// The outcome of a control-plane request.
#[derive(Debug, Clone, Copy, PartialEq, Eq, Structural)]
pub enum ControlReply {
    /// The policy was replaced.
    AlgorithmChanged,
    /// The query did not name a policy.
    InvalidAlgorithmType,
    /// The request had no query.
    NoQueryAttached,
}

impl ControlReply {
    /// The text of the response body.
    pub fn body(&self) -> (r: &'static str)
        ensures
            *self == ControlReply::AlgorithmChanged ==> r@ == "Algorithm Changed!"@,
            *self == ControlReply::InvalidAlgorithmType ==> r@ == "Invalid Algorithm Type"@,
            *self == ControlReply::NoQueryAttached ==> r@ == "No Query Attached"@,
    {
        match self {
            ControlReply::AlgorithmChanged => "Algorithm Changed!",
            ControlReply::InvalidAlgorithmType => "Invalid Algorithm Type",
            ControlReply::NoQueryAttached => "No Query Attached",
        }
    }
}

/// Handles a control-plane request with query `query` at `now_ms`. Where the
/// query names a policy, the policy in use is replaced by a fresh one of that
/// kind and the meter is reset for the kind that was in use; otherwise
/// nothing changes.
pub fn change_algorithm(
    policy: &mut Policy,
    metrics: &mut Metrics,
    registry: &Registry,
    query: Option<&str>,
    now_ms: u128,
) -> (r: ControlReply)
    ensures
        query is None ==> r == ControlReply::NoQueryAttached,
        query matches Some(q) ==> match query_kind(q@) {
            Some(k) => r == ControlReply::AlgorithmChanged && is_fresh(*final(policy), k, registry@)
                && was_reset(*old(metrics), *final(metrics), old(policy).kind(), now_ms as int),
            None => r == ControlReply::InvalidAlgorithmType,
        },
        r != ControlReply::AlgorithmChanged ==> *final(policy) == *old(policy) && *final(metrics)
            == *old(metrics),
{
    let q = match query {
        Some(q) => q,
        None => return ControlReply::NoQueryAttached,
    };
    let kind = match decode_form(q) {
        Ok(fields) => requested_algorithm(&fields),
        Err(_) => None,
    };
    match kind {
        Some(k) => {
            install_policy(policy, metrics, registry, k, now_ms);
            ControlReply::AlgorithmChanged
        },
        None => ControlReply::InvalidAlgorithmType,
    }
}

/// The upstream URI for `worker`: its host followed by the request's path
/// and query, where there is one.
pub fn upstream_uri(worker: &Worker, path_and_query: Option<&str>) -> (r: String)
    ensures
        r@ == match path_and_query {
            Some(pq) => worker.host@ + pq@,
            None => worker.host@,
        },
{
    let uri = worker.host.clone();
    match path_and_query {
        Some(pq) => uri.concat(pq),
        None => uri,
    }
}

} // verus!
