//! Running under Kubernetes as a stateful set: the peers are the pods of
//! the set that are running, each reached as `<pod>.<set>`, and a pod's
//! ordinal is the number after the last hyphen of its host name.
use vstd::prelude::*;
use vstd::string::*;
use crate::rafka_core::{Error, Environment};
use crate::rafka_core::config::var_or;
use crate::text::{views, split_on, split_to_strings, lemma_split_nonempty, parse_i32, parse_signed_spec};

verus! {

/// What the library reads of a pod: its name and, when it has a status
/// with a phase, the phase.
#[derive(Clone, Debug, PartialEq, Eq)]
pub struct PodSummary {
    pub name: String,
    pub phase: Option<String>,
}

/// A pod as plain values.
pub struct PodView {
    pub name: Seq<char>,
    pub phase: Option<Seq<char>>,
}

impl View for PodSummary {
    type V = PodView;

    open spec fn view(&self) -> PodView {
        PodView {
            name: self.name@,
            phase: match self.phase {
                Some(p) => Some(p@),
                None => None,
            },
        }
    }
}

pub open spec fn pod_views(v: Seq<PodSummary>) -> Seq<PodView> {
    v.map_values(|p: PodSummary| p@)
}

/// The peers among `pods`: `<pod>.<set>` for each running pod, in order.
pub open spec fn running_peers(pods: Seq<PodView>, set: Seq<char>) -> Seq<Seq<char>>
    decreases pods.len(),
{
    if pods.len() == 0 {
        Seq::empty()
    } else {
        let r = running_peers(pods.drop_last(), set);
        let p = pods.last();
        if p.phase == Some("Running"@) {
            r.push(p.name + "."@ + set)
        } else {
            r
        }
    }
}

/// The ordinal in a host name: the number after its last hyphen (the whole
/// name when it has none), as an `i32`.
pub open spec fn ordinal_of(hostname: Seq<char>) -> Option<int> {
    match parse_signed_spec(split_on(hostname, '-').last(), 0x7fff_ffff) {
        Ok(v) => Some(v),
        Err(_) => None,
    }
}

pub struct KubernetesManager {
    pub namespace: String,
    pub statefulset_name: String,
}

impl KubernetesManager {
    /// The namespace is `POD_NAMESPACE` (default `default`) and the set is
    /// `STATEFULSET_NAME` (default `rafka`).
    pub fn new(env: &Environment) -> (m: KubernetesManager)
        requires
            env.wf(),
        ensures
            m.namespace@ == var_or(env@, "POD_NAMESPACE"@, "default"@),
            m.statefulset_name@ == var_or(env@, "STATEFULSET_NAME"@, "rafka"@),
    {
        KubernetesManager {
            namespace: env.var_or("POD_NAMESPACE", "default"),
            statefulset_name: env.var_or("STATEFULSET_NAME", "rafka"),
        }
    }

    /// The label selector of the set's pods, `app=<set>`.
    pub fn label_selector(&self) -> (r: String)
        ensures
            r@ == "app="@ + self.statefulset_name@,
    {
        let mut s = String::from_str("app=");
        s.append(self.statefulset_name.as_str());
        proof { reveal_strlit("app="); }
        s
    }

    /// The peers among the listed pods: `<pod>.<set>` for each pod whose
    /// phase is `Running`, in the order of the list.
    pub fn discover_peers(&self, pods: &Vec<PodSummary>) -> (r: Vec<String>)
        ensures
            views(r@) == running_peers(pod_views(pods@), self.statefulset_name@),
    {
        let ghost ps = pod_views(pods@);
        let mut r: Vec<String> = Vec::new();
        let mut i: usize = 0;
        let running_phase = String::from_str("Running");
        proof { reveal_strlit("Running"); reveal_strlit("."); }
        while i < pods.len()
            invariant
                ps == pod_views(pods@),
                running_phase@ == "Running"@,
                i <= pods@.len(),
                views(r@) == running_peers(ps.take(i as int), self.statefulset_name@),
            decreases pods@.len() - i,
        {
            let pod = &pods[i];
            assert(ps.take(i as int + 1).drop_last() =~= ps.take(i as int));
            assert(ps.take(i as int + 1).last() == pod@);
            let running = match &pod.phase {
                Some(phase) => *phase == running_phase,
                None => false,
            };
            if running {
                let mut peer = pod.name.clone();
                peer.append(".");
                peer.append(self.statefulset_name.as_str());
                let ghost before = views(r@);
                r.push(peer);
                assert(views(r@) =~= before.push(pod.name@ + "."@ + self.statefulset_name@));
            }
            i = i + 1;
        }
        assert(ps.take(pods@.len() as int) =~= ps);
        r
    }

    /// Readiness needs no update: it always succeeds.
    pub fn update_readiness(&self, is_ready: bool) -> (r: Result<(), Error>)
        ensures
            r == Ok::<(), Error>(()),
    {
        Ok(())
    }

    /// The pod's ordinal from its host name. Without a host name it is
    /// `Kubernetes("Unable to get hostname")`; when the part after the last
    /// hyphen is not an `i32` it is `Kubernetes("Invalid pod name format")`.
    pub fn get_pod_ordinal(&self, hostname: Option<String>) -> (r: Result<i32, Error>)
        ensures
            match hostname {
                None => r matches Err(Error::Kubernetes(t)) && t@ == "Unable to get hostname"@,
                Some(h) => match ordinal_of(h@) {
                    Some(v) => r matches Ok(o) && o as int == v,
                    None => r matches Err(Error::Kubernetes(t)) && t@ == "Invalid pod name format"@,
                },
            },
    {
        match hostname {
            None => {
                proof { reveal_strlit("Unable to get hostname"); }
                Err(Error::Kubernetes(String::from_str("Unable to get hostname")))
            },
            Some(h) => {
                let pieces = split_to_strings(h.as_str(), '-');
                proof { lemma_split_nonempty(h@, '-'); }
                let last = &pieces[pieces.len() - 1];
                assert(last@ == split_on(h@, '-').last());
                match parse_i32(last.as_str()) {
                    Ok(v) => Ok(v),
                    Err(_) => {
                        proof { reveal_strlit("Invalid pod name format"); }
                        Err(Error::Kubernetes(String::from_str("Invalid pod name format")))
                    },
                }
            },
        }
    }
}

} // verus!
