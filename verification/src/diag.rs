//! The pod diagnostic extractor: the non-empty waiting messages of a pod's
//! containers, joined with newlines, or nothing when the pod offers no
//! diagnostic at all.

use crate::model::{ContainerStatus, Pod};
use vstd::prelude::*;
use vstd::string::StrSliceExecFns;
use vstd::string::StringExecFns;

verus! {

/// The non-empty waiting messages of the container statuses, in container
/// order.
pub open spec fn waiting_messages(cs: Seq<ContainerStatus>) -> Seq<Seq<char>>
    decreases cs.len(),
{
    if cs.len() == 0 {
        Seq::empty()
    } else {
        let rest = waiting_messages(cs.drop_last());
        match cs.last().waiting {
            Some(w) => match w.message {
                Some(m) => if m@.len() > 0 {
                    rest.push(m@)
                } else {
                    rest
                },
                None => rest,
            },
            None => rest,
        }
    }
}

/// Messages joined with one newline between consecutive entries.
pub open spec fn join_newline(msgs: Seq<Seq<char>>) -> Seq<char>
    decreases msgs.len(),
{
    if msgs.len() == 0 {
        Seq::empty()
    } else if msgs.len() == 1 {
        msgs.last()
    } else {
        join_newline(msgs.drop_last()) + seq!['\n'] + msgs.last()
    }
}

/// The diagnostic of one pod: its joined waiting messages, absent when the
/// pod has no status, no container statuses, or no non-empty waiting
/// message among them.
pub open spec fn pod_diag(p: Pod) -> Option<Seq<char>> {
    match p.status {
        None => None,
        Some(st) => match st.container_statuses {
            None => None,
            Some(cs) => {
                let ms = waiting_messages(cs@);
                if ms.len() == 0 {
                    None
                } else {
                    Some(join_newline(ms))
                }
            },
        },
    }
}

/// The pod diagnostic extractor.
pub fn pod_status_message(pod: &Pod) -> (r: Option<String>)
    ensures
        r is Some <==> pod_diag(*pod) is Some,
        pod_diag(*pod) matches Some(m) ==> r matches Some(s) && s@ == m,
{
    match &pod.status {
        None => None,
        Some(st) => match &st.container_statuses {
            None => None,
            Some(cs) => {
                let mut out = String::new();
                let mut any = false;
                let mut i: usize = 0;
                proof {
                    assert(cs@.take(0) =~= Seq::<ContainerStatus>::empty());
                }
                while i < cs.len()
                    invariant
                        i <= cs.len(),
                        any <==> waiting_messages(cs@.take(i as int)).len() > 0,
                        any ==> out@ == join_newline(waiting_messages(cs@.take(i as int))),
                        !any ==> out@ == Seq::<char>::empty(),
                    decreases cs.len() - i,
                {
                    proof {
                        assert(cs@.take(i as int + 1).drop_last() =~= cs@.take(i as int));
                        assert(cs@.take(i as int + 1).last() == cs@[i as int]);
                    }
                    let c = &cs[i];
                    match &c.waiting {
                        Some(w) => match &w.message {
                            Some(m) => {
                                if !m.as_str().is_empty() {
                                    if any {
                                        out.append("\n");
                                        proof {
                                            reveal_strlit("\n");
                                            assert("\n"@ =~= seq!['\n']);
                                        }
                                    }
                                    out.append(m.as_str());
                                    proof {
                                        let prev = waiting_messages(cs@.take(i as int));
                                        let ms = waiting_messages(cs@.take(i as int + 1));
                                        assert(ms =~= prev.push(m@));
                                        assert(ms.drop_last() =~= prev);
                                        assert(ms.last() == m@);
                                        assert(out@ =~= join_newline(ms));
                                    }
                                    any = true;
                                }
                            },
                            None => {},
                        },
                        None => {},
                    }
                    i = i + 1;
                }
                proof {
                    assert(cs@.take(cs@.len() as int) =~= cs@);
                }
                if any {
                    Some(out)
                } else {
                    None
                }
            },
        },
    }
}

} // verus!
