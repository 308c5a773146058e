use agent_comms::links::AgentLink;
use agent_comms::links::LinkDef;
use agent_comms::links::LinkDirection;
use agent_comms::links::LinkField;
use agent_comms::links::LinkRelationship;
use agent_comms::links::links_for_agent;
use agent_comms::topology::topology;

fn def(from: &str, to: &str, direction: &str, relationship: &str) -> LinkDef {
    LinkDef {
        from: from.to_string(),
        to: to.to_string(),
        direction: direction.to_string(),
        relationship: relationship.to_string(),
    }
}

fn link(from: &str, to: &str, d: LinkDirection, k: LinkRelationship) -> AgentLink {
    AgentLink {
        from_agent_id: from.to_string(),
        to_agent_id: to.to_string(),
        direction: d,
        relationship: k,
    }
}

#[test]
fn channel_id_is_symmetric() {
    let ab = link("agentA", "agentB", LinkDirection::OneWay, LinkRelationship::Peer);
    let ba = link("agentB", "agentA", LinkDirection::TwoWay, LinkRelationship::Hierarchical);
    assert_eq!(ab.channel_id(), "link:agentA:agentB");
    assert_eq!(ba.channel_id(), "link:agentA:agentB");
}

#[test]
fn channel_id_sorts_the_pair() {
    let l = link("zeta", "alpha", LinkDirection::OneWay, LinkRelationship::Peer);
    assert_eq!(l.channel_id(), "link:alpha:zeta");
}

#[test]
fn direction_round_trips() {
    for d in [LinkDirection::OneWay, LinkDirection::TwoWay] {
        assert_eq!(LinkDirection::parse(d.as_str()), Some(d));
    }
    assert_eq!(LinkDirection::OneWay.as_str(), "one_way");
    assert_eq!(LinkDirection::TwoWay.as_str(), "two_way");
}

#[test]
fn relationship_round_trips() {
    for k in [LinkRelationship::Peer, LinkRelationship::Hierarchical] {
        assert_eq!(LinkRelationship::parse(k.as_str()), Some(k));
    }
    assert_eq!(LinkRelationship::Peer.as_str(), "peer");
    assert_eq!(LinkRelationship::Hierarchical.as_str(), "hierarchical");
}

#[test]
fn legacy_superior_parses_to_hierarchical() {
    assert_eq!(LinkRelationship::parse("superior"), Some(LinkRelationship::Hierarchical));
}

#[test]
fn legacy_subordinate_parses_to_hierarchical() {
    assert_eq!(LinkRelationship::parse("subordinate"), Some(LinkRelationship::Hierarchical));
}

#[test]
fn invalid_literals_do_not_parse() {
    assert_eq!(LinkDirection::parse("both_ways"), None);
    assert_eq!(LinkDirection::parse(""), None);
    assert_eq!(LinkDirection::parse("One_Way"), None);
    assert_eq!(LinkRelationship::parse("boss"), None);
    assert_eq!(LinkRelationship::parse(""), None);
}

#[test]
fn inverse_is_identity_on_the_current_schema() {
    assert_eq!(LinkRelationship::Peer.inverse(), LinkRelationship::Peer);
    assert_eq!(LinkRelationship::Hierarchical.inverse(), LinkRelationship::Hierarchical);
}

#[test]
fn from_config_builds_every_link() {
    let defs = vec![
        def("a", "b", "two_way", "peer"),
        def("b", "c", "one_way", "superior"),
    ];
    let links = AgentLink::from_config(&defs).unwrap();
    assert_eq!(links.len(), 2);
    assert_eq!(links[0].from_agent_id, "a");
    assert_eq!(links[0].to_agent_id, "b");
    assert_eq!(links[0].direction, LinkDirection::TwoWay);
    assert_eq!(links[0].relationship, LinkRelationship::Peer);
    assert_eq!(links[1].from_agent_id, "b");
    assert_eq!(links[1].to_agent_id, "c");
    assert_eq!(links[1].direction, LinkDirection::OneWay);
    assert_eq!(links[1].relationship, LinkRelationship::Hierarchical);
}

#[test]
fn invalid_direction_fails_the_whole_batch() {
    let defs = vec![
        def("a", "b", "two_way", "peer"),
        def("b", "c", "sideways", "peer"),
        def("c", "d", "one_way", "peer"),
    ];
    let err = AgentLink::from_config(&defs).unwrap_err();
    assert_eq!(err.field, LinkField::Direction);
    assert_eq!(err.value, "sideways");
    assert_eq!(err.from, "b");
    assert_eq!(err.to, "c");
}

#[test]
fn invalid_relationship_fails_the_whole_batch() {
    let defs = vec![
        def("a", "b", "two_way", "peer"),
        def("b", "c", "one_way", "overlord"),
    ];
    let err = AgentLink::from_config(&defs).unwrap_err();
    assert_eq!(err.field, LinkField::Relationship);
    assert_eq!(err.value, "overlord");
    assert_eq!(err.from, "b");
    assert_eq!(err.to, "c");
}

#[test]
fn links_for_agent_includes_one_way_to_endpoint() {
    let links = vec![
        link("agentA", "agentB", LinkDirection::OneWay, LinkRelationship::Peer),
        link("agentC", "agentD", LinkDirection::TwoWay, LinkRelationship::Peer),
    ];
    let for_b = links_for_agent(&links, "agentB");
    assert_eq!(for_b.len(), 1);
    assert_eq!(for_b[0].from_agent_id, "agentA");
    assert_eq!(for_b[0].to_agent_id, "agentB");
}

#[test]
fn topology_end_to_end() {
    let defs = vec![
        def("A", "B", "two_way", "peer"),
        def("B", "C", "one_way", "hierarchical"),
    ];
    let edges = AgentLink::from_config(&defs).unwrap();
    let agents = vec!["A".to_string(), "B".to_string(), "C".to_string()];
    let view = topology(&agents, &edges);
    assert_eq!(view.agents.len(), 3);
    assert_eq!(view.links.len(), 2);
    assert_eq!(view.agents[0].id, "A");
    assert_eq!(view.agents[0].name, "A");
    assert_eq!(view.links[0].from, "A");
    assert_eq!(view.links[0].to, "B");
    assert_eq!(view.links[0].direction, "two_way");
    assert_eq!(view.links[0].relationship, "peer");
    assert_eq!(view.links[1].from, "B");
    assert_eq!(view.links[1].to, "C");
    assert_eq!(view.links[1].direction, "one_way");
    assert_eq!(view.links[1].relationship, "hierarchical");
    let for_b = links_for_agent(&edges, "B");
    assert_eq!(for_b.len(), 2);
    assert_eq!(for_b[0].from_agent_id, "A");
    assert_eq!(for_b[1].from_agent_id, "B");
}
