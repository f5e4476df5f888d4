//! The data the health report reads: a snapshot of deployments and pods as
//! plain values, and the health record the report emits.

use vstd::prelude::*;
use vstd::string::StrSliceExecFns;

verus! {

/// One `key=value` entry of a label mapping.
pub struct Label {
    pub key: String,
    pub value: String,
}

impl View for Label {
    type V = (Seq<char>, Seq<char>);

    open spec fn view(&self) -> (Seq<char>, Seq<char>) {
        (self.key@, self.value@)
    }
}

/// The views of a label sequence, in order.
pub open spec fn label_views(s: Seq<Label>) -> Seq<(Seq<char>, Seq<char>)> {
    s.map_values(|l: Label| l@)
}

/// A container's waiting state, which may carry a diagnostic message.
pub struct WaitingState {
    pub message: Option<String>,
}

/// One container's status; `waiting` is present exactly when the container
/// is in the waiting state.
pub struct ContainerStatus {
    pub waiting: Option<WaitingState>,
}

/// A pod's status: its container statuses, which the platform may omit.
pub struct PodStatus {
    pub container_statuses: Option<Vec<ContainerStatus>>,
}

/// A pod snapshot: its labels and its status, if it has one yet.
pub struct Pod {
    pub labels: Vec<Label>,
    pub status: Option<PodStatus>,
}

/// A deployment snapshot: its name, its desired and ready replica counts
/// (absent counts mean zero), and the match-label mapping of its pod
/// template, absent when the deployment carries no selector specification.
pub struct Deployment {
    pub name: String,
    pub replicas: Option<i32>,
    pub ready_replicas: Option<i32>,
    pub match_labels: Option<Vec<Label>>,
}

/// One deployment's health record: the report's output. `status_message`
/// is absent exactly when the deployment is healthy; for a degraded
/// deployment it holds the deduplicated pod diagnostics, possibly empty.
pub struct DeploymentStatus {
    pub name: String,
    pub ready_replicas: i32,
    pub replicas: i32,
    pub status_message: Option<Vec<String>>,
}

/// The mathematical shadow of a `DeploymentStatus`.
#[verifier::ext_equal]
pub ghost struct HealthRec {
    pub name: Seq<char>,
    pub ready_replicas: int,
    pub replicas: int,
    pub status_message: Option<Seq<Seq<char>>>,
}

/// The views of a message sequence, in order.
pub open spec fn msg_views(s: Seq<String>) -> Seq<Seq<char>> {
    s.map_values(|m: String| m@)
}

pub open spec fn health_view(s: DeploymentStatus) -> HealthRec {
    HealthRec {
        name: s.name@,
        ready_replicas: s.ready_replicas as int,
        replicas: s.replicas as int,
        status_message: match s.status_message {
            Some(v) => Some(msg_views(v@)),
            None => None,
        },
    }
}

/// An absent replica count reads as zero.
pub open spec fn count_or_zero(c: Option<i32>) -> int {
    match c {
        Some(n) => n as int,
        None => 0,
    }
}

pub fn count_value(c: &Option<i32>) -> (r: i32)
    ensures
        r as int == count_or_zero(*c),
{
    match c {
        Some(n) => *n,
        None => 0,
    }
}

/// The name prefix of platform-internal deployments, which the report
/// never covers.
pub open spec fn reserved_prefix() -> Seq<char> {
    seq!['k', 'u', 'b', 'e', '-']
}

pub open spec fn is_reserved(name: Seq<char>) -> bool {
    name.len() >= 5 && name.subrange(0, 5) == reserved_prefix()
}

pub fn starts_with_reserved(name: &str) -> (r: bool)
    ensures
        r == is_reserved(name@),
{
    if name.unicode_len() < 5 {
        return false;
    }
    let r = name.get_char(0) == 'k' && name.get_char(1) == 'u' && name.get_char(2) == 'b'
        && name.get_char(3) == 'e' && name.get_char(4) == '-';
    proof {
        if r {
            assert(name@.subrange(0, 5) =~= reserved_prefix());
        }
        if is_reserved(name@) {
            assert(name@.subrange(0, 5)[0] == 'k');
            assert(name@.subrange(0, 5)[1] == 'u');
            assert(name@.subrange(0, 5)[2] == 'b');
            assert(name@.subrange(0, 5)[3] == 'e');
            assert(name@.subrange(0, 5)[4] == '-');
        }
    }
    r
}

} // verus!
