//! The agent communication graph: typed, directed edges between agents,
//! validated from raw configuration and mapped to durable channel identities.

use vstd::prelude::*;

verus! {

/// Direction policy for an agent link.
#[derive(Debug, Clone, Copy, PartialEq, Eq, Structural)]
pub enum LinkDirection {
    /// Only the `from` agent may initiate sends on this link.
    OneWay,
    /// Both agents may initiate sends through this link.
    TwoWay,
}

impl LinkDirection {
    /// The canonical string for this direction.
    pub open spec fn spec_str(self) -> Seq<char> {
        match self {
            LinkDirection::OneWay => "one_way"@,
            LinkDirection::TwoWay => "two_way"@,
        }
    }

    /// What [`LinkDirection::parse`] accepts: exactly the two canonical strings.
    pub open spec fn spec_parse(s: Seq<char>) -> Option<LinkDirection> {
        if s == "one_way"@ {
            Some(LinkDirection::OneWay)
        } else if s == "two_way"@ {
            Some(LinkDirection::TwoWay)
        } else {
            None
        }
    }

    pub fn as_str(&self) -> (r: &'static str)
        ensures
            r@ == self.spec_str(),
    {
        match self {
            LinkDirection::OneWay => "one_way",
            LinkDirection::TwoWay => "two_way",
        }
    }

    /// Parse a configuration string into a direction; `None` on anything
    /// other than `"one_way"` or `"two_way"`.
    pub fn parse(s: &str) -> (r: Option<LinkDirection>)
        ensures
            r == LinkDirection::spec_parse(s@),
    {
        if crate::text::str_eq(s, "one_way") {
            Some(LinkDirection::OneWay)
        } else if crate::text::str_eq(s, "two_way") {
            Some(LinkDirection::TwoWay)
        } else {
            None
        }
    }
}

/// Serializing a direction and parsing it back yields the same value.
pub proof fn lemma_direction_round_trip(d: LinkDirection)
    ensures
        LinkDirection::spec_parse(d.spec_str()) == Some(d),
{
    reveal_strlit("one_way");
    reveal_strlit("two_way");
    assert("one_way"@[0] == 'o');
    assert("two_way"@[0] == 't');
}

/// Relationship semantics of an agent link: the social framing a message
/// carries, not a delivery restriction.
///
/// An earlier schema used three values (`peer`, `superior`, `subordinate`)
/// together with an inversion that swapped the latter two. The current
/// schema collapses `superior` and `subordinate` into [`Hierarchical`],
/// oriented by the edge's direction instead of by a separate field; the
/// parser still accepts the two legacy strings.
///
/// [`Hierarchical`]: LinkRelationship::Hierarchical
#[derive(Debug, Clone, Copy, PartialEq, Eq, Structural)]
pub enum LinkRelationship {
    /// Equal peers: neither agent has authority over the other.
    Peer,
    /// The `from` agent is superior to the `to` agent.
    Hierarchical,
}

impl LinkRelationship {
    /// The canonical string for this relationship.
    pub open spec fn spec_str(self) -> Seq<char> {
        match self {
            LinkRelationship::Peer => "peer"@,
            LinkRelationship::Hierarchical => "hierarchical"@,
        }
    }

    /// What [`LinkRelationship::parse`] accepts: the two canonical strings,
    /// plus the legacy `"superior"` and `"subordinate"`, which both collapse
    /// to [`LinkRelationship::Hierarchical`].
    pub open spec fn spec_parse(s: Seq<char>) -> Option<LinkRelationship> {
        if s == "peer"@ {
            Some(LinkRelationship::Peer)
        } else if s == "hierarchical"@ || s == "superior"@ || s == "subordinate"@ {
            Some(LinkRelationship::Hierarchical)
        } else {
            None
        }
    }

    /// The relationship seen from the other endpoint.
    ///
    /// Under the legacy three-valued schema this swapped superior and
    /// subordinate; both collapse to [`LinkRelationship::Hierarchical`], so
    /// on the current schema the map is the identity and the other side's
    /// view of an edge is derived from its direction instead.
    pub open spec fn spec_inverse(self) -> LinkRelationship {
        match self {
            LinkRelationship::Peer => LinkRelationship::Peer,
            LinkRelationship::Hierarchical => LinkRelationship::Hierarchical,
        }
    }

    pub fn as_str(&self) -> (r: &'static str)
        ensures
            r@ == self.spec_str(),
    {
        match self {
            LinkRelationship::Peer => "peer",
            LinkRelationship::Hierarchical => "hierarchical",
        }
    }

    /// Parse a configuration string into a relationship; `None` on anything
    /// other than the canonical or legacy strings.
    pub fn parse(s: &str) -> (r: Option<LinkRelationship>)
        ensures
            r == LinkRelationship::spec_parse(s@),
    {
        if crate::text::str_eq(s, "peer") {
            Some(LinkRelationship::Peer)
        } else if crate::text::str_eq(s, "hierarchical") {
            Some(LinkRelationship::Hierarchical)
        } else if crate::text::str_eq(s, "superior") {
            Some(LinkRelationship::Hierarchical)
        } else if crate::text::str_eq(s, "subordinate") {
            Some(LinkRelationship::Hierarchical)
        } else {
            None
        }
    }

    /// See [`LinkRelationship::spec_inverse`].
    pub fn inverse(&self) -> (r: LinkRelationship)
        ensures
            r == self.spec_inverse(),
    {
        match self {
            LinkRelationship::Peer => LinkRelationship::Peer,
            LinkRelationship::Hierarchical => LinkRelationship::Hierarchical,
        }
    }
}

/// Serializing a relationship and parsing it back yields the same value.
pub proof fn lemma_relationship_round_trip(k: LinkRelationship)
    ensures
        LinkRelationship::spec_parse(k.spec_str()) == Some(k),
{
    reveal_strlit("peer");
    reveal_strlit("hierarchical");
    assert("peer"@.len() == 4);
    assert("hierarchical"@.len() == 12);
}

/// The legacy strings `"superior"` and `"subordinate"` both parse to
/// [`LinkRelationship::Hierarchical`].
pub proof fn lemma_legacy_relationships_collapse()
    ensures
        LinkRelationship::spec_parse("superior"@) == Some(LinkRelationship::Hierarchical),
        LinkRelationship::spec_parse("subordinate"@) == Some(LinkRelationship::Hierarchical),
{
    reveal_strlit("peer");
    reveal_strlit("superior");
    reveal_strlit("subordinate");
    assert("peer"@.len() == 4);
    assert("superior"@.len() == 8);
    assert("subordinate"@.len() == 11);
}

/// A raw link definition, as configuration supplies it before validation.
#[derive(Debug, Clone)]
pub struct LinkDef {
    pub from: String,
    pub to: String,
    pub direction: String,
    pub relationship: String,
}

impl LinkDef {
    /// Both enumerated fields of this definition parse.
    pub open spec fn spec_valid(self) -> bool {
        &&& LinkDirection::spec_parse(self.direction@) is Some
        &&& LinkRelationship::spec_parse(self.relationship@) is Some
    }
}

/// The field of a link definition that failed validation.
#[derive(Debug, Clone, Copy, PartialEq, Eq, Structural)]
pub enum LinkField {
    Direction,
    Relationship,
}

/// A configuration error: a raw link definition holds an invalid `direction`
/// or `relationship` literal. Carries the offending field, its literal value
/// and the edge's endpoints; the accepted values are exactly those of
/// [`LinkDirection::spec_parse`] and [`LinkRelationship::spec_parse`].
#[derive(Debug)]
pub struct LinkConfigError {
    pub field: LinkField,
    pub value: String,
    pub from: String,
    pub to: String,
}

/// A directed edge in the agent communication graph: a policy-governed
/// permission for `from_agent_id` to message `to_agent_id`, carrying the
/// social framing of the conversation.
#[derive(Debug)]
pub struct AgentLink {
    pub from_agent_id: String,
    pub to_agent_id: String,
    pub direction: LinkDirection,
    pub relationship: LinkRelationship,
}

impl Clone for AgentLink {
    fn clone(&self) -> (res: Self)
        ensures
            res == *self,
    {
        AgentLink {
            from_agent_id: self.from_agent_id.clone(),
            to_agent_id: self.to_agent_id.clone(),
            direction: self.direction,
            relationship: self.relationship,
        }
    }
}

/// The canonical channel identity of an agent pair: `link:` followed by the
/// two identifiers in lexicographic order, separated by `:`.
pub open spec fn spec_channel_id(a: Seq<char>, b: Seq<char>) -> Seq<char> {
    if crate::text::lex_le(a, b) {
        "link:"@ + a + ":"@ + b
    } else {
        "link:"@ + b + ":"@ + a
    }
}

impl AgentLink {
    /// The typed edge a valid definition denotes.
    pub open spec fn spec_of_def(d: LinkDef) -> AgentLink {
        AgentLink {
            from_agent_id: d.from,
            to_agent_id: d.to,
            direction: LinkDirection::spec_parse(d.direction@).unwrap(),
            relationship: LinkRelationship::spec_parse(d.relationship@).unwrap(),
        }
    }

    /// Validate raw link definitions into typed edges.
    ///
    /// All-or-nothing: if any definition fails, no edges are produced, and
    /// the error describes the first failing definition — its offending
    /// field (direction is checked first), the literal invalid value, and
    /// the `from`/`to` pair for context.
    pub fn from_config(defs: &Vec<LinkDef>) -> (r: Result<Vec<AgentLink>, LinkConfigError>)
        ensures
            r is Ok <==> (forall|i: int|
                0 <= i < defs@.len() ==> (#[trigger] defs@[i]).spec_valid()),
            r matches Ok(links) ==> {
                &&& links@.len() == defs@.len()
                &&& forall|i: int|
                    0 <= i < defs@.len() ==> links@[i] == AgentLink::spec_of_def(
                        #[trigger] defs@[i],
                    )
            },
            r matches Err(e) ==> exists|i: int|
                {
                    &&& 0 <= i < defs@.len()
                    &&& !(#[trigger] defs@[i]).spec_valid()
                    &&& (forall|j: int| 0 <= j < i ==> (#[trigger] defs@[j]).spec_valid())
                    &&& e.from@ == defs@[i].from@
                    &&& e.to@ == defs@[i].to@
                    &&& (e.field == LinkField::Direction <==> LinkDirection::spec_parse(
                        defs@[i].direction@,
                    ) is None)
                    &&& e.value@ == (if LinkDirection::spec_parse(defs@[i].direction@) is None {
                        defs@[i].direction@
                    } else {
                        defs@[i].relationship@
                    })
                },
    {
        let mut links: Vec<AgentLink> = Vec::new();
        let mut idx: usize = 0;
        while idx < defs.len()
            invariant
                idx <= defs@.len(),
                links@.len() == idx,
                forall|j: int| 0 <= j < idx ==> (#[trigger] defs@[j]).spec_valid(),
                forall|j: int|
                    0 <= j < idx ==> links@[j] == AgentLink::spec_of_def(#[trigger] defs@[j]),
            decreases defs@.len() - idx,
        {
            let def = &defs[idx];
            let direction = match LinkDirection::parse(def.direction.as_str()) {
                Some(d) => d,
                None => {
                    return Err(
                        LinkConfigError {
                            field: LinkField::Direction,
                            value: def.direction.clone(),
                            from: def.from.clone(),
                            to: def.to.clone(),
                        },
                    );
                },
            };
            let relationship = match LinkRelationship::parse(def.relationship.as_str()) {
                Some(k) => k,
                None => {
                    return Err(
                        LinkConfigError {
                            field: LinkField::Relationship,
                            value: def.relationship.clone(),
                            from: def.from.clone(),
                            to: def.to.clone(),
                        },
                    );
                },
            };
            links.push(
                AgentLink {
                    from_agent_id: def.from.clone(),
                    to_agent_id: def.to.clone(),
                    direction,
                    relationship,
                },
            );
            idx += 1;
        }
        Ok(links)
    }

    /// Stable identifier for this link's conversation channel: deterministic
    /// from the two agent identifiers alone, so both directions of a
    /// conversation always resolve to one durable channel.
    pub fn channel_id(&self) -> (r: String)
        ensures
            r@ == spec_channel_id(self.from_agent_id@, self.to_agent_id@),
    {
        let le = crate::text::str_lex_le(self.from_agent_id.as_str(), self.to_agent_id.as_str());
        let (a, b) = if le {
            (self.from_agent_id.as_str(), self.to_agent_id.as_str())
        } else {
            (self.to_agent_id.as_str(), self.from_agent_id.as_str())
        };
        let mut r = "link:".to_owned();
        r.append(a);
        r.append(":");
        r.append(b);
        proof {
            assert(r@ =~= spec_channel_id(self.from_agent_id@, self.to_agent_id@));
        }
        r
    }
}

/// The channel identity is symmetric in its two agent identifiers: both
/// directions of an edge name the same durable channel, whatever the edge's
/// direction or relationship.
pub proof fn lemma_channel_id_symmetric(a: Seq<char>, b: Seq<char>)
    ensures
        spec_channel_id(a, b) == spec_channel_id(b, a),
{
    crate::text::lemma_lex_le_total(a, b);
    if crate::text::lex_le(a, b) && crate::text::lex_le(b, a) {
        crate::text::lemma_lex_le_antisymmetric(a, b);
    }
}

/// Whether `agent` is an endpoint of `link`, in either role.
pub open spec fn spec_touches(link: AgentLink, agent: Seq<char>) -> bool {
    link.from_agent_id@ == agent || link.to_agent_id@ == agent
}

/// The edges of `links` that touch `agent`, in their original order.
pub open spec fn spec_links_for(links: Seq<AgentLink>, agent: Seq<char>) -> Seq<AgentLink>
    decreases links.len(),
{
    if links.len() == 0 {
        Seq::empty()
    } else {
        spec_links_for(links.drop_last(), agent) + (if spec_touches(links.last(), agent) {
            seq![links.last()]
        } else {
            Seq::<AgentLink>::empty()
        })
    }
}

/// Every edge where the agent is either endpoint, for display and routing.
///
/// Membership, not permission: direction only gates who may initiate a send,
/// so an agent named only as `to` of a one-way edge still appears here.
pub fn links_for_agent(links: &Vec<AgentLink>, agent_id: &str) -> (r: Vec<AgentLink>)
    ensures
        r@ == spec_links_for(links@, agent_id@),
{
    let mut out: Vec<AgentLink> = Vec::new();
    let mut i: usize = 0;
    while i < links.len()
        invariant
            i <= links@.len(),
            out@ == spec_links_for(links@.take(i as int), agent_id@),
        decreases links@.len() - i,
    {
        let l = &links[i];
        let touches = crate::text::str_eq(l.from_agent_id.as_str(), agent_id)
            || crate::text::str_eq(l.to_agent_id.as_str(), agent_id);
        proof {
            assert(links@.take(i + 1).drop_last() =~= links@.take(i as int));
            assert(links@.take(i + 1).last() == links@[i as int]);
        }
        if touches {
            out.push(l.clone());
            proof {
                assert(out@ =~= spec_links_for(links@.take(i + 1), agent_id@));
            }
        } else {
            proof {
                assert(out@ =~= spec_links_for(links@.take(i + 1), agent_id@));
            }
        }
        i += 1;
    }
    proof {
        assert(links@.take(links@.len() as int) =~= links@);
    }
    out
}

/// An edge that touches an agent is in that agent's link list — also when
/// the agent is only the `to` endpoint of a one-way edge.
pub proof fn lemma_links_for_membership(links: Seq<AgentLink>, agent: Seq<char>, i: int)
    requires
        0 <= i < links.len(),
        spec_touches(links[i], agent),
    ensures
        spec_links_for(links, agent).contains(links[i]),
    decreases links.len(),
{
    let prefix = spec_links_for(links.drop_last(), agent);
    if i == links.len() - 1 {
        assert(spec_links_for(links, agent)[prefix.len() as int] == links[i]);
    } else {
        assert(links.drop_last()[i] == links[i]);
        lemma_links_for_membership(links.drop_last(), agent, i);
        let k = choose|k: int| 0 <= k < prefix.len() && prefix[k] == links[i];
        assert(spec_links_for(links, agent)[k] == links[i]);
    }
}

} // verus!

