//! Read-only projection of the agent graph for visualization: the configured
//! agent identifiers together with the current edge snapshot, restated with
//! string-valued direction and relationship.

use crate::links::AgentLink;
use vstd::prelude::*;

verus! {

/// A node of the rendered topology; the agent identifier doubles as its
/// display label.
#[derive(Debug)]
pub struct TopologyAgent {
    pub id: String,
    pub name: String,
}

/// An edge of the rendered topology, with its enums spelled out as strings.
#[derive(Debug)]
pub struct TopologyLink {
    pub from: String,
    pub to: String,
    pub direction: String,
    pub relationship: String,
}

/// The full agent/link graph, rendered for visualization.
#[derive(Debug)]
pub struct TopologyView {
    pub agents: Vec<TopologyAgent>,
    pub links: Vec<TopologyLink>,
}

/// Render the known agent identifiers and the current edge snapshot as a
/// topology. A pure projection, recomputed on every call: agents take their
/// identifier as both id and name; links restate each edge in order, with
/// canonical `direction` and `relationship` strings.
pub fn topology(agent_ids: &Vec<String>, links: &Vec<AgentLink>) -> (r: TopologyView)
    ensures
        r.agents@.len() == agent_ids@.len(),
        forall|i: int|
            0 <= i < agent_ids@.len() ==> {
                &&& (#[trigger] r.agents@[i]).id@ == agent_ids@[i]@
                &&& r.agents@[i].name@ == agent_ids@[i]@
            },
        r.links@.len() == links@.len(),
        forall|i: int|
            0 <= i < links@.len() ==> {
                &&& (#[trigger] r.links@[i]).from@ == links@[i].from_agent_id@
                &&& r.links@[i].to@ == links@[i].to_agent_id@
                &&& r.links@[i].direction@ == links@[i].direction.spec_str()
                &&& r.links@[i].relationship@ == links@[i].relationship.spec_str()
            },
{
    let mut agents: Vec<TopologyAgent> = Vec::new();
    let mut i: usize = 0;
    while i < agent_ids.len()
        invariant
            i <= agent_ids@.len(),
            agents@.len() == i,
            forall|j: int|
                0 <= j < i ==> {
                    &&& (#[trigger] agents@[j]).id@ == agent_ids@[j]@
                    &&& agents@[j].name@ == agent_ids@[j]@
                },
        decreases agent_ids@.len() - i,
    {
        let id = &agent_ids[i];
        agents.push(TopologyAgent { id: id.clone(), name: id.clone() });
        i += 1;
    }
    let mut rendered: Vec<TopologyLink> = Vec::new();
    let mut k: usize = 0;
    while k < links.len()
        invariant
            k <= links@.len(),
            rendered@.len() == k,
            forall|j: int|
                0 <= j < k ==> {
                    &&& (#[trigger] rendered@[j]).from@ == links@[j].from_agent_id@
                    &&& rendered@[j].to@ == links@[j].to_agent_id@
                    &&& rendered@[j].direction@ == links@[j].direction.spec_str()
                    &&& rendered@[j].relationship@ == links@[j].relationship.spec_str()
                },
        decreases links@.len() - k,
    {
        let l = &links[k];
        rendered.push(
            TopologyLink {
                from: l.from_agent_id.clone(),
                to: l.to_agent_id.clone(),
                direction: l.direction.as_str().to_owned(),
                relationship: l.relationship.as_str().to_owned(),
            },
        );
        k += 1;
    }
    TopologyView { agents, links: rendered }
}

} // verus!
