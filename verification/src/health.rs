//! The health evaluator and the aggregation driver: one record per eligible
//! deployment, with deduplicated pod diagnostics for the degraded ones.

use crate::diag::{pod_diag, pod_status_message};
use crate::model::{
    count_or_zero, count_value, health_view, is_reserved, label_views, msg_views,
    starts_with_reserved, Deployment, DeploymentStatus, HealthRec, Label, Pod,
};
use crate::selector::{label_selector, selector_of};
use vstd::prelude::*;

verus! {

/// Whether the pair `l` occurs among the labels `ls`.
pub open spec fn has_label(ls: Seq<Label>, l: (Seq<char>, Seq<char>)) -> bool {
    exists|j: int| 0 <= j < ls.len() && ls[j]@ == l
}

/// Whether a pod's labels satisfy every pair of the match-label mapping:
/// the meaning of a conjunctive label selector.
pub open spec fn spec_pod_matches(ml: Seq<Label>, p: Pod) -> bool {
    forall|i: int| 0 <= i < ml.len() ==> has_label(p.labels@, ml[i]@)
}

fn has_label_exec(ls: &Vec<Label>, l: &Label) -> (r: bool)
    ensures
        r == has_label(ls@, l@),
{
    let mut j: usize = 0;
    while j < ls.len()
        invariant
            j <= ls.len(),
            forall|k: int| 0 <= k < j ==> ls@[k]@ != l@,
        decreases ls.len() - j,
    {
        let c = &ls[j];
        if c.key == l.key && c.value == l.value {
            proof {
                assert(ls@[j as int]@ == l@);
            }
            return true;
        }
        j = j + 1;
    }
    false
}

/// Whether the pod would be returned by a query with the selector built
/// from `ml`.
pub fn pod_matches(ml: &Vec<Label>, pod: &Pod) -> (r: bool)
    ensures
        r == spec_pod_matches(ml@, *pod),
{
    let mut i: usize = 0;
    while i < ml.len()
        invariant
            i <= ml.len(),
            forall|k: int| 0 <= k < i ==> has_label(pod.labels@, ml@[k]@),
        decreases ml.len() - i,
    {
        if !has_label_exec(&pod.labels, &ml[i]) {
            return false;
        }
        i = i + 1;
    }
    true
}

/// The diagnostics of the pods, in pod order, before deduplication.
pub open spec fn pod_msgs(ps: Seq<Pod>) -> Seq<Seq<char>>
    decreases ps.len(),
{
    if ps.len() == 0 {
        Seq::empty()
    } else {
        let rest = pod_msgs(ps.drop_last());
        match pod_diag(ps.last()) {
            Some(m) => rest.push(m),
            None => rest,
        }
    }
}

/// The diagnostics of the pods that match the mapping, in pod order: what a
/// scoped pod query followed by extraction yields.
pub open spec fn matched_msgs(ml: Seq<Label>, ps: Seq<Pod>) -> Seq<Seq<char>>
    decreases ps.len(),
{
    if ps.len() == 0 {
        Seq::empty()
    } else {
        let rest = matched_msgs(ml, ps.drop_last());
        if spec_pod_matches(ml, ps.last()) {
            match pod_diag(ps.last()) {
                Some(m) => rest.push(m),
                None => rest,
            }
        } else {
            rest
        }
    }
}

/// Deduplication on full-string equality across the whole sequence: every
/// message keeps its first occurrence and loses the later ones.
pub open spec fn dedup_msgs(s: Seq<Seq<char>>) -> Seq<Seq<char>>
    decreases s.len(),
{
    if s.len() == 0 {
        s
    } else {
        let rest = dedup_msgs(s.drop_last());
        if rest.contains(s.last()) {
            rest
        } else {
            rest.push(s.last())
        }
    }
}

/// Deduplication leaves no duplicate entries behind.
pub proof fn lemma_dedup_no_duplicates(s: Seq<Seq<char>>)
    ensures
        forall|i: int, j: int|
            0 <= i < j < dedup_msgs(s).len() ==> dedup_msgs(s)[i] != dedup_msgs(s)[j],
    decreases s.len(),
{
    if s.len() == 0 {
    } else {
        lemma_dedup_no_duplicates(s.drop_last());
        let rest = dedup_msgs(s.drop_last());
        let d = dedup_msgs(s);
        if !rest.contains(s.last()) {
            assert forall|i: int, j: int| 0 <= i < j < d.len() implies d[i] != d[j] by {
                if j == d.len() - 1 {
                    assert(rest.contains(rest[i]));
                }
            }
        }
    }
}

fn contains_string(hay: &Vec<String>, needle: &String) -> (r: bool)
    ensures
        r == msg_views(hay@).contains(needle@),
{
    let mut j: usize = 0;
    while j < hay.len()
        invariant
            j <= hay.len(),
            forall|k: int| 0 <= k < j ==> msg_views(hay@)[k] != needle@,
        decreases hay.len() - j,
    {
        if hay[j].eq(needle) {
            proof {
                assert(msg_views(hay@)[j as int] == needle@);
            }
            return true;
        }
        j = j + 1;
    }
    proof {
        if msg_views(hay@).contains(needle@) {
            let k = choose|k: int| 0 <= k < msg_views(hay@).len() && msg_views(hay@)[k] == needle@;
            assert(msg_views(hay@)[k] != needle@);
        }
    }
    false
}

/// Removes every repeated message, keeping first occurrences in order.
pub fn dedup_strings(msgs: Vec<String>) -> (r: Vec<String>)
    ensures
        msg_views(r@) == dedup_msgs(msg_views(msgs@)),
{
    let mut out: Vec<String> = Vec::new();
    let mut i: usize = 0;
    proof {
        assert(msg_views(msgs@.take(0)) =~= Seq::<Seq<char>>::empty());
        assert(msg_views(msgs@).take(0) =~= Seq::<Seq<char>>::empty());
        assert(msg_views(out@) =~= dedup_msgs(msg_views(msgs@).take(0)));
    }
    while i < msgs.len()
        invariant
            i <= msgs.len(),
            msg_views(out@) == dedup_msgs(msg_views(msgs@).take(i as int)),
        decreases msgs.len() - i,
    {
        proof {
            assert(msg_views(msgs@).take(i as int + 1).drop_last() =~= msg_views(
                msgs@,
            ).take(i as int));
            assert(msg_views(msgs@).take(i as int + 1).last() == msgs@[i as int]@);
        }
        let m = &msgs[i];
        if !contains_string(&out, m) {
            let copied = m.clone();
            out.push(copied);
            proof {
                assert(msg_views(out@) =~= dedup_msgs(msg_views(msgs@).take(i as int + 1)));
            }
        }
        i = i + 1;
    }
    proof {
        assert(msg_views(msgs@).take(msgs@.len() as int) =~= msg_views(msgs@));
    }
    out
}

/// Whether the deployment's ready count differs from its desired count.
pub open spec fn degraded(d: Deployment) -> bool {
    count_or_zero(d.ready_replicas) != count_or_zero(d.replicas)
}

/// One deployment's record, if any: a healthy deployment's record carries
/// no diagnostics; a degraded one carries the deduplicated diagnostics of
/// the pods matching its selector, an empty mapping scoping no query at
/// all; a degraded deployment without a selector specification yields
/// nothing.
pub open spec fn eval_spec(d: Deployment, ps: Seq<Pod>) -> Option<HealthRec> {
    if !degraded(d) {
        Some(
            HealthRec {
                name: d.name@,
                ready_replicas: count_or_zero(d.ready_replicas),
                replicas: count_or_zero(d.replicas),
                status_message: None,
            },
        )
    } else {
        match d.match_labels {
            None => None,
            Some(ml) => Some(
                HealthRec {
                    name: d.name@,
                    ready_replicas: count_or_zero(d.ready_replicas),
                    replicas: count_or_zero(d.replicas),
                    status_message: Some(
                        if ml@.len() == 0 {
                            Seq::empty()
                        } else {
                            dedup_msgs(matched_msgs(ml@, ps))
                        },
                    ),
                },
            ),
        }
    }
}

/// Whether evaluating the deployment issues a pod query: only a reported,
/// degraded deployment with a non-empty selector does.
pub open spec fn issues_query(d: Deployment) -> bool {
    &&& !is_reserved(d.name@)
    &&& degraded(d)
    &&& d.match_labels matches Some(ml) && ml@.len() > 0
}

/// How many pod queries one aggregation pass over `ds` issues.
pub open spec fn query_count(ds: Seq<Deployment>) -> int
    decreases ds.len(),
{
    if ds.len() == 0 {
        0int
    } else {
        query_count(ds.drop_last()) + if issues_query(ds.last()) {
            1int
        } else {
            0int
        }
    }
}

/// The whole report over a snapshot: records in deployment order, the
/// reserved-prefix deployments left out.
pub open spec fn report(ds: Seq<Deployment>, ps: Seq<Pod>) -> Seq<HealthRec>
    decreases ds.len(),
{
    if ds.len() == 0 {
        Seq::empty()
    } else {
        let rest = report(ds.drop_last(), ps);
        let d = ds.last();
        if is_reserved(d.name@) {
            rest
        } else {
            match eval_spec(d, ps) {
                Some(r) => rest.push(r),
                None => rest,
            }
        }
    }
}

/// A healthy deployment's record carries no diagnostics, and its
/// evaluation issues no pod query.
pub proof fn lemma_healthy_no_query(d: Deployment, ps: Seq<Pod>)
    requires
        !degraded(d),
    ensures
        eval_spec(d, ps) matches Some(r) && r.status_message is None,
        !issues_query(d),
{
}

/// A degraded deployment with a selector specification yields a record
/// whose diagnostics are present and hold no duplicate entries.
pub proof fn lemma_degraded_deduplicated(d: Deployment, ps: Seq<Pod>)
    requires
        degraded(d),
        d.match_labels is Some,
    ensures
        eval_spec(d, ps) matches Some(r) && r.status_message matches Some(msgs) && forall|
            i: int,
            j: int,
        | 0 <= i < j < msgs.len() ==> msgs[i] != msgs[j],
{
    let ml = d.match_labels->Some_0;
    if ml@.len() > 0 {
        lemma_dedup_no_duplicates(matched_msgs(ml@, ps));
    }
}

/// No deployment with the reserved name prefix appears in the report.
pub proof fn lemma_reserved_excluded(ds: Seq<Deployment>, ps: Seq<Pod>)
    ensures
        forall|k: int|
            0 <= k < report(ds, ps).len() ==> !is_reserved(#[trigger] report(ds, ps)[k].name),
    decreases ds.len(),
{
    if ds.len() > 0 {
        lemma_reserved_excluded(ds.drop_last(), ps);
    }
}

/// The evaluator's decision for one deployment, before any pod query.
pub enum Evaluation {
    /// The record is already complete: the deployment is healthy, or it is
    /// degraded with an empty selector, which must not scope a query.
    Report(DeploymentStatus),
    /// Degraded with no selector specification: the deployment cannot be
    /// diagnosed and is left out of the report.
    Skip,
    /// Degraded: query pods with this selector text, then finish with
    /// `degraded_status`.
    QueryPods(String),
}

/// Decides, per deployment, what the report needs: a healthy record now, a
/// pod query, or nothing. No pod query is needed for a healthy deployment.
pub fn evaluate(d: &Deployment) -> (r: Evaluation)
    ensures
        match r {
            Evaluation::Report(rec) => (!degraded(*d) || (d.match_labels matches Some(ml)
                && ml@.len() == 0)) && forall|ps: Seq<Pod>|
                eval_spec(*d, ps) == Some(health_view(rec)),
            Evaluation::Skip => degraded(*d) && d.match_labels is None && forall|ps: Seq<Pod>|
                eval_spec(*d, ps) is None,
            Evaluation::QueryPods(sel) => degraded(*d) && (d.match_labels matches Some(ml)
                && ml@.len() > 0 && sel@ == selector_of(label_views(ml@))),
        },
{
    let ready = count_value(&d.ready_replicas);
    let reps = count_value(&d.replicas);
    if ready == reps {
        let rec = DeploymentStatus {
            name: d.name.clone(),
            ready_replicas: ready,
            replicas: reps,
            status_message: None,
        };
        proof {
            assert forall|ps: Seq<Pod>| eval_spec(*d, ps) == Some(health_view(rec)) by {
                assert(health_view(rec) =~= eval_spec(*d, ps)->Some_0);
            }
        }
        Evaluation::Report(rec)
    } else {
        match &d.match_labels {
            None => Evaluation::Skip,
            Some(ml) => {
                if ml.len() == 0 {
                    let empty: Vec<String> = Vec::new();
                    proof {
                        assert(msg_views(empty@) =~= Seq::<Seq<char>>::empty());
                    }
                    let rec = DeploymentStatus {
                        name: d.name.clone(),
                        ready_replicas: ready,
                        replicas: reps,
                        status_message: Some(empty),
                    };
                    proof {
                        assert forall|ps: Seq<Pod>| eval_spec(*d, ps) == Some(
                            health_view(rec),
                        ) by {
                            assert(health_view(rec) =~= eval_spec(*d, ps)->Some_0);
                        }
                    }
                    Evaluation::Report(rec)
                } else {
                    match label_selector(d) {
                        Some(sel) => Evaluation::QueryPods(sel),
                        None => {
                            proof {
                                assert(false);
                            }
                            Evaluation::Skip
                        },
                    }
                }
            },
        }
    }
}

fn collect_diagnostics(pods: &Vec<Pod>) -> (r: Vec<String>)
    ensures
        msg_views(r@) == pod_msgs(pods@),
{
    let mut out: Vec<String> = Vec::new();
    let mut i: usize = 0;
    proof {
        assert(pods@.take(0) =~= Seq::<Pod>::empty());
        assert(msg_views(out@) =~= pod_msgs(pods@.take(0)));
    }
    while i < pods.len()
        invariant
            i <= pods.len(),
            msg_views(out@) == pod_msgs(pods@.take(i as int)),
        decreases pods.len() - i,
    {
        proof {
            assert(pods@.take(i as int + 1).drop_last() =~= pods@.take(i as int));
            assert(pods@.take(i as int + 1).last() == pods@[i as int]);
        }
        match pod_status_message(&pods[i]) {
            Some(m) => {
                out.push(m);
                proof {
                    assert(msg_views(out@) =~= pod_msgs(pods@.take(i as int + 1)));
                }
            },
            None => {},
        }
        i = i + 1;
    }
    proof {
        assert(pods@.take(pods@.len() as int) =~= pods@);
    }
    out
}

fn matched_diagnostics(ml: &Vec<Label>, pods: &Vec<Pod>) -> (r: Vec<String>)
    ensures
        msg_views(r@) == matched_msgs(ml@, pods@),
{
    let mut out: Vec<String> = Vec::new();
    let mut i: usize = 0;
    proof {
        assert(pods@.take(0) =~= Seq::<Pod>::empty());
        assert(msg_views(out@) =~= matched_msgs(ml@, pods@.take(0)));
    }
    while i < pods.len()
        invariant
            i <= pods.len(),
            msg_views(out@) == matched_msgs(ml@, pods@.take(i as int)),
        decreases pods.len() - i,
    {
        proof {
            assert(pods@.take(i as int + 1).drop_last() =~= pods@.take(i as int));
            assert(pods@.take(i as int + 1).last() == pods@[i as int]);
        }
        if pod_matches(ml, &pods[i]) {
            match pod_status_message(&pods[i]) {
                Some(m) => {
                    out.push(m);
                    proof {
                        assert(msg_views(out@) =~= matched_msgs(ml@, pods@.take(i as int + 1)));
                    }
                },
                None => {},
            }
        }
        i = i + 1;
    }
    proof {
        assert(pods@.take(pods@.len() as int) =~= pods@);
    }
    out
}

/// The record of a degraded deployment whose backing pods were fetched
/// with the built selector: the pods' deduplicated diagnostics.
pub fn degraded_status(d: &Deployment, pods: &Vec<Pod>) -> (r: DeploymentStatus)
    ensures
        health_view(r) == (HealthRec {
            name: d.name@,
            ready_replicas: count_or_zero(d.ready_replicas),
            replicas: count_or_zero(d.replicas),
            status_message: Some(dedup_msgs(pod_msgs(pods@))),
        }),
{
    let msgs = collect_diagnostics(pods);
    let deduped = dedup_strings(msgs);
    let rec = DeploymentStatus {
        name: d.name.clone(),
        ready_replicas: count_value(&d.ready_replicas),
        replicas: count_value(&d.replicas),
        status_message: Some(deduped),
    };
    rec
}

/// The views of a record sequence, in order.
pub open spec fn health_views(s: Seq<DeploymentStatus>) -> Seq<HealthRec> {
    s.map_values(|x: DeploymentStatus| health_view(x))
}

/// The aggregation driver over a snapshot: the report in deployment order
/// and the number of pod queries the pass issues, one per degraded
/// deployment with a non-empty selector.
pub fn aggregate(ds: &Vec<Deployment>, pods: &Vec<Pod>) -> (r: (Vec<DeploymentStatus>, usize))
    ensures
        health_views(r.0@) == report(ds@, pods@),
        r.1 == query_count(ds@),
{
    let mut out: Vec<DeploymentStatus> = Vec::new();
    let mut queries: usize = 0;
    let mut i: usize = 0;
    proof {
        assert(ds@.take(0) =~= Seq::<Deployment>::empty());
        assert(health_views(out@) =~= report(ds@.take(0), pods@));
    }
    while i < ds.len()
        invariant
            i <= ds.len(),
            queries <= i,
            health_views(out@) == report(ds@.take(i as int), pods@),
            queries == query_count(ds@.take(i as int)),
        decreases ds.len() - i,
    {
        proof {
            assert(ds@.take(i as int + 1).drop_last() =~= ds@.take(i as int));
            assert(ds@.take(i as int + 1).last() == ds@[i as int]);
        }
        let d = &ds[i];
        if !starts_with_reserved(d.name.as_str()) {
            match evaluate(d) {
                Evaluation::Report(rec) => {
                    out.push(rec);
                    proof {
                        assert(health_views(out@) =~= report(ds@.take(i as int + 1), pods@));
                    }
                },
                Evaluation::Skip => {},
                Evaluation::QueryPods(_sel) => {
                    queries = queries + 1;
                    match &d.match_labels {
                        Some(ml) => {
                            let msgs = matched_diagnostics(ml, pods);
                            let deduped = dedup_strings(msgs);
                            let rec = DeploymentStatus {
                                name: d.name.clone(),
                                ready_replicas: count_value(&d.ready_replicas),
                                replicas: count_value(&d.replicas),
                                status_message: Some(deduped),
                            };
                            out.push(rec);
                            proof {
                                assert(health_view(rec) =~= eval_spec(
                                    ds@[i as int],
                                    pods@,
                                )->Some_0);
                                assert(health_views(out@) =~= report(
                                    ds@.take(i as int + 1),
                                    pods@,
                                ));
                            }
                        },
                        None => {
                            proof {
                                assert(false);
                            }
                        },
                    }
                },
            }
        }
        i = i + 1;
    }
    proof {
        assert(ds@.take(ds@.len() as int) =~= ds@);
    }
    (out, queries)
}

} // verus!
