//! The decisions of the diagram page, apart from the page itself: which
//! nodes the diagram shows, which nodes have a style element, what each
//! style says about its container, and which container a click on the
//! diagram describes. The page performs what these functions decide.

use vstd::prelude::*;

use crate::model::{keys_match_nodes, Container, ContainerView, KeyView, NodeKey, NodeView, Nodes};
use crate::table::{distinct_keys, insert_entry, lemma_insert_entry, lookup, KeyTable};
use crate::text::{str_eq};
use crate::utils::{
    cid_into_css_selector, css_selector_seq, lemma_svg_rotation_roundtrip, parse_cid_from_svg_rotation,
    rotation_value_seq, svg_rotation_cid,
};

verus! {

// ---------------------------------------------------------------------------
// Style texts
// ---------------------------------------------------------------------------

/// The percentage that colours a container: full for a running one, faint
/// otherwise.
pub open spec fn state_level(state: Seq<char>) -> Seq<char> {
    if state == "running"@ {
        "100"@
    } else {
        "2"@
    }
}

/// Only a running container is coloured at the full level 100; every other
/// state (paused, exited, restarting, ...) is coloured at level 2.
pub proof fn lemma_state_level_running_only(state: Seq<char>)
    ensures
        state == "running"@ ==> state_level(state) == "100"@,
        state != "running"@ ==> state_level(state) == "2"@,
        state_level(state) == "100"@ <==> state == "running"@,
{
    reveal_strlit("100");
    reveal_strlit("2");
    assert("100"@.len() != "2"@.len());
}

/// The style of a node whose container the server reports.
pub open spec fn available_css(selector: Seq<char>, tname: Seq<char>, level: Seq<char>) -> Seq<char> {
    selector + " {\n                            /* container "@ + tname
        + " available */\n                            filter: invert("@ + level + "%) sepia("@
        + level + "%) saturate(1352%) hue-rotate("@ + level
        + "deg) brightness(119%) contrast(119%);\n                        }"@
}

/// The style of a node whose container the server does not report.
pub open spec fn unavailable_css(selector: Seq<char>, tname: Seq<char>) -> Seq<char> {
    selector + " {\n                            /* container "@ + tname
        + " not available */\n                            filter: brightness(11%) contrast(11%);\n                        }"@
}

fn state_level_str(state: &str) -> (res: &'static str)
    ensures
        res@ == state_level(state@),
        state@ == "running"@ ==> res@ == "100"@,
        state@ != "running"@ ==> res@ == "2"@,
{
    proof {
        lemma_state_level_running_only(state@);
    }
    if str_eq(state, "running") {
        "100"
    } else {
        "2"
    }
}

fn available_css_string(selector: &str, tname: &str, level: &str) -> (res: String)
    ensures
        res@ == available_css(selector@, tname@, level@),
{
    let mut res = selector.to_owned();
    res.append(" {\n                            /* container ");
    res.append(tname);
    res.append(" available */\n                            filter: invert(");
    res.append(level);
    res.append("%) sepia(");
    res.append(level);
    res.append("%) saturate(1352%) hue-rotate(");
    res.append(level);
    res.append("deg) brightness(119%) contrast(119%);\n                        }");
    res
}

fn unavailable_css_string(selector: &str, tname: &str) -> (res: String)
    ensures
        res@ == unavailable_css(selector@, tname@),
{
    let mut res = selector.to_owned();
    res.append(" {\n                            /* container ");
    res.append(tname);
    res.append(" not available */\n                            filter: brightness(11%) contrast(11%);\n                        }");
    res
}

// ---------------------------------------------------------------------------
// Planning the styles
// ---------------------------------------------------------------------------

/// A style element's new text: the element is the one of the node filed
/// under `key`.
#[derive(Debug)]
pub struct StyleUpdate {
    pub key: NodeKey,
    pub css: String,
}

impl View for StyleUpdate {
    type V = (KeyView, Seq<char>);

    open spec fn view(&self) -> (KeyView, Seq<char>) {
        (self.key@, self.css@)
    }
}

/// For each reported container on the diagram of `server`, in report order,
/// the style that shows it available, coloured by its state.
pub open spec fn available_updates(
    nodes: Seq<(KeyView, NodeView)>,
    containers: Seq<ContainerView>,
    server: Seq<char>,
) -> Seq<(KeyView, Seq<char>)>
    decreases containers.len(),
{
    if containers.len() == 0 {
        Seq::empty()
    } else {
        let prev = available_updates(nodes, containers.drop_last(), server);
        let c = containers.last();
        let key = (c.names, server);
        match lookup(nodes, key) {
            Some(node) => prev.push(
                (key, available_css(css_selector_seq(node.cid as nat), c.names, state_level(c.state))),
            ),
            None => prev,
        }
    }
}

/// The last known state of each container, after recording the reported
/// containers that are on the diagram of `server`.
pub open spec fn recorded_states(
    states: Seq<(KeyView, ContainerView)>,
    nodes: Seq<(KeyView, NodeView)>,
    containers: Seq<ContainerView>,
    server: Seq<char>,
) -> Seq<(KeyView, ContainerView)>
    decreases containers.len(),
{
    if containers.len() == 0 {
        states
    } else {
        let prev = recorded_states(states, nodes, containers.drop_last(), server);
        let c = containers.last();
        let key = (c.names, server);
        if lookup(nodes, key) is Some {
            insert_entry(prev, key, c)
        } else {
            prev
        }
    }
}

/// The last reported container named `name`, if any.
pub open spec fn last_named(containers: Seq<ContainerView>, name: Seq<char>) -> Option<ContainerView>
    decreases containers.len(),
{
    if containers.len() == 0 {
        None
    } else if containers.last().names == name {
        Some(containers.last())
    } else {
        last_named(containers.drop_last(), name)
    }
}

/// After a report, the state recorded for a node of the diagram of `server`
/// is the last reported container with the node's name; any other key keeps
/// the state it had.
pub proof fn lemma_recorded_state_is_last_report(
    states: Seq<(KeyView, ContainerView)>,
    nodes: Seq<(KeyView, NodeView)>,
    containers: Seq<ContainerView>,
    server: Seq<char>,
    k: KeyView,
)
    requires
        distinct_keys(states),
    ensures
        distinct_keys(recorded_states(states, nodes, containers, server)),
        lookup(recorded_states(states, nodes, containers, server), k) == if k.1 == server
            && lookup(nodes, k) is Some && last_named(containers, k.0) is Some {
            last_named(containers, k.0)
        } else {
            lookup(states, k)
        },
    decreases containers.len(),
{
    if containers.len() > 0 {
        let rest = containers.drop_last();
        lemma_recorded_state_is_last_report(states, nodes, rest, server, k);
        let prev = recorded_states(states, nodes, rest, server);
        let c = containers.last();
        let key = (c.names, server);
        if lookup(nodes, key) is Some {
            lemma_insert_entry(prev, key, c);
        }
    }
}

/// The name found for `cid` is the name of the first node that has `cid`.
pub proof fn lemma_name_with_cid(nodes: Seq<(KeyView, NodeView)>, cid: u16, i: int)
    requires
        0 <= i < nodes.len(),
        nodes[i].1.cid == cid,
        forall|j: int| 0 <= j < i ==> nodes[j].1.cid != cid,
    ensures
        name_with_cid(nodes, cid) == nodes[i].0.0,
    decreases i,
{
    if i > 0 {
        let rest = nodes.drop_first();
        assert(nodes[0].1.cid != cid);
        assert forall|j: int| 0 <= j < i - 1 implies rest[j].1.cid != cid by {
            assert(rest[j] == nodes[j + 1]);
        }
        lemma_name_with_cid(rest, cid, i - 1);
    }
}

/// A click on the rendered node `rotate(0.001XX9 ...)` describes the last
/// reported state of the container of the first node with id `XX`, when that
/// node belongs to the described server and the last report named it.
pub proof fn lemma_click_shows_last_report(
    states: Seq<(KeyView, ContainerView)>,
    nodes: Seq<(KeyView, NodeView)>,
    containers: Seq<ContainerView>,
    i: int,
    rest: Seq<char>,
)
    requires
        distinct_keys(states),
        distinct_keys(nodes),
        0 <= i < nodes.len(),
        nodes[i].0.1 == tooltip_server(),
        nodes[i].1.cid < 100,
        forall|j: int| 0 <= j < i ==> nodes[j].1.cid != nodes[i].1.cid,
        last_named(containers, nodes[i].0.0) is Some,
    ensures
        lookup(
            recorded_states(states, nodes, containers, tooltip_server()),
            (
                name_with_cid(
                    nodes,
                    svg_rotation_cid(
                        "rotate("@ + rotation_value_seq(nodes[i].1.cid as nat) + " "@ + rest,
                    ),
                ),
                tooltip_server(),
            ),
        ) == last_named(containers, nodes[i].0.0),
{
    let cid = nodes[i].1.cid;
    lemma_svg_rotation_roundtrip(cid, rest);
    lemma_name_with_cid(nodes, cid, i);
    crate::table::lemma_lookup(nodes, nodes[i].0);
    let k = (nodes[i].0.0, tooltip_server());
    assert(k == nodes[i].0);
    lemma_recorded_state_is_last_report(states, nodes, containers, tooltip_server(), k);
}

/// Some reported container has the name `name`.
pub open spec fn named_in(containers: Seq<ContainerView>, name: Seq<char>) -> bool {
    exists|i: int| 0 <= i < containers.len() && containers[i].names == name
}

/// For each node of the diagram, in table order, whose name no reported
/// container has: the style that shows it unavailable, for the element filed
/// under its name and `server`, where there is such an element.
pub open spec fn unavailable_updates(
    nodes: Seq<(KeyView, NodeView)>,
    styled: Seq<(KeyView, ())>,
    containers: Seq<ContainerView>,
    server: Seq<char>,
) -> Seq<(KeyView, Seq<char>)>
    decreases nodes.len(),
{
    if nodes.len() == 0 {
        Seq::empty()
    } else {
        let prev = unavailable_updates(nodes.drop_last(), styled, containers, server);
        let (k, node) = nodes.last();
        let key = (node.tname, server);
        if !named_in(containers, k.0) && lookup(styled, key) is Some {
            prev.push((key, unavailable_css(css_selector_seq(node.cid as nat), node.tname)))
        } else {
            prev
        }
    }
}

/// Reporting one more container adds at most one "available" style: the
/// container's node on the diagram of `server`, if there is one, is coloured
/// at level 100 exactly when the container is running, and at level 2
/// otherwise.
pub proof fn lemma_available_step(
    nodes: Seq<(KeyView, NodeView)>,
    containers: Seq<ContainerView>,
    c: ContainerView,
    server: Seq<char>,
)
    ensures
        available_updates(nodes, containers.push(c), server) == available_updates(
            nodes,
            containers,
            server,
        ) + match lookup(nodes, (c.names, server)) {
            Some(node) => seq![
                (
                    (c.names, server),
                    available_css(
                        css_selector_seq(node.cid as nat),
                        c.names,
                        if c.state == "running"@ {
                            "100"@
                        } else {
                            "2"@
                        },
                    ),
                ),
            ],
            None => Seq::empty(),
        },
{
    assert(containers.push(c).drop_last() =~= containers);
    lemma_state_level_running_only(c.state);
    match lookup(nodes, (c.names, server)) {
        Some(node) => {
            assert(available_updates(nodes, containers, server).push(
                ((c.names, server), available_css(css_selector_seq(node.cid as nat), c.names, state_level(c.state))),
            ) =~= available_updates(nodes, containers, server) + seq![
                ((c.names, server), available_css(css_selector_seq(node.cid as nat), c.names, state_level(c.state))),
            ]);
        },
        None => {
            assert(available_updates(nodes, containers, server) + Seq::empty() =~= available_updates(
                nodes,
                containers,
                server,
            ));
        },
    }
}

/// One more diagram node adds at most one "not available" style: for the
/// element of its name and `server`, exactly when no reported container's
/// name equals the node's name (equal, not merely a prefix or an extension)
/// and that element exists.
pub proof fn lemma_unavailable_step(
    nodes: Seq<(KeyView, NodeView)>,
    styled: Seq<(KeyView, ())>,
    containers: Seq<ContainerView>,
    server: Seq<char>,
    i: int,
)
    requires
        0 <= i < nodes.len(),
    ensures
        unavailable_updates(nodes.take(i + 1), styled, containers, server) == unavailable_updates(
            nodes.take(i),
            styled,
            containers,
            server,
        ) + if (forall|j: int| 0 <= j < containers.len() ==> containers[j].names != nodes[i].0.0)
            && lookup(styled, (nodes[i].1.tname, server)) is Some {
            seq![
                (
                    (nodes[i].1.tname, server),
                    unavailable_css(css_selector_seq(nodes[i].1.cid as nat), nodes[i].1.tname),
                ),
            ]
        } else {
            Seq::empty()
        },
{
    let prefix = nodes.take(i + 1);
    assert(prefix.drop_last() =~= nodes.take(i));
    assert(prefix.last() == nodes[i]);
    let prev = unavailable_updates(nodes.take(i), styled, containers, server);
    let item = (
        (nodes[i].1.tname, server),
        unavailable_css(css_selector_seq(nodes[i].1.cid as nat), nodes[i].1.tname),
    );
    if named_in(containers, nodes[i].0.0) {
        let j = choose|j: int| 0 <= j < containers.len() && containers[j].names == nodes[i].0.0;
        assert(!(forall|j: int| 0 <= j < containers.len() ==> containers[j].names != nodes[i].0.0));
    }
    assert(prev.push(item) =~= prev + seq![item]);
    assert(prev + Seq::empty() =~= prev);
}

/// The keys after adding each of `keys` in order.
pub open spec fn add_keys(styled: Seq<(KeyView, ())>, keys: Seq<KeyView>) -> Seq<(KeyView, ())>
    decreases keys.len(),
{
    if keys.len() == 0 {
        styled
    } else {
        insert_entry(add_keys(styled, keys.drop_last()), keys.last(), ())
    }
}

/// The name of the first node, in table order, whose container id is `cid`;
/// the empty text where there is none.
pub open spec fn name_with_cid(nodes: Seq<(KeyView, NodeView)>, cid: u16) -> Seq<char>
    decreases nodes.len(),
{
    if nodes.len() == 0 {
        Seq::empty()
    } else if nodes[0].1.cid == cid {
        nodes[0].0.0
    } else {
        name_with_cid(nodes.drop_first(), cid)
    }
}

/// The server whose containers a click on the diagram describes.
pub open spec fn tooltip_server() -> Seq<char> {
    "ccdev.bdo.ru"@
}

/// The state of the page, taken by its view.
pub struct DashboardView {
    /// The nodes of the diagram shown.
    pub nodes: Seq<(KeyView, NodeView)>,
    /// The keys for which the page holds a style element.
    pub styled: Seq<(KeyView, ())>,
    /// The last reported state of each container on the diagram.
    pub states: Seq<(KeyView, ContainerView)>,
    /// The node selected on the diagram.
    pub selected: Option<KeyView>,
}

/// The state of the diagram page: the diagram's nodes, the keys that have a
/// style element, the last reported state of each container and the
/// selected node. Every node of the diagram has a style element.
pub struct Dashboard {
    dia_nodes: Nodes,
    styled: KeyTable<()>,
    cur_state: KeyTable<Container>,
    selected_node: Option<NodeKey>,
}

impl View for Dashboard {
    type V = DashboardView;

    closed spec fn view(&self) -> DashboardView {
        DashboardView {
            nodes: self.dia_nodes.0.pairs(),
            styled: self.styled.pairs(),
            states: self.cur_state.pairs(),
            selected: match self.selected_node {
                Some(k) => Some(k@),
                None => None,
            },
        }
    }
}

/// Every node is filed under its own name and server, and every node's key
/// has a style element.
pub open spec fn dashboard_consistent(v: DashboardView) -> bool {
    &&& keys_match_nodes(v.nodes)
    &&& forall|i: int| 0 <= i < v.nodes.len() ==> lookup(v.styled, #[trigger] v.nodes[i].0) is Some
}

impl Dashboard {
    #[verifier::type_invariant]
    spec fn consistent(&self) -> bool {
        dashboard_consistent(self@)
    }

    /// The page state always holds the consistency that the style planning
    /// relies on.
    pub fn is_consistent(&self) -> (res: bool)
        ensures
            res,
            dashboard_consistent(self@),
    {
        proof {
            use_type_invariant(self);
        }
        true
    }

    /// The nodes of the diagram shown.
    pub fn nodes(&self) -> (res: &Nodes)
        ensures
            res.0.pairs() == self@.nodes,
    {
        &self.dia_nodes
    }

    /// The last reported state of each container on the diagram.
    pub fn states(&self) -> (res: &KeyTable<Container>)
        ensures
            res.pairs() == self@.states,
    {
        &self.cur_state
    }

    /// A page without a diagram.
    pub fn new() -> (res: Dashboard)
        ensures
            res@.nodes.len() == 0,
            res@.styled.len() == 0,
            res@.states.len() == 0,
            res@.selected is None,
    {
        Dashboard {
            dia_nodes: Nodes::new(),
            styled: KeyTable::new(),
            cur_state: KeyTable::new(),
            selected_node: None,
        }
    }

    /// The diagram is taken off the page: no node stays selected.
    pub fn clean_diagram(&mut self)
        ensures
            final(self)@.nodes == old(self)@.nodes,
            final(self)@.styled == old(self)@.styled,
            final(self)@.states == old(self)@.states,
            final(self)@.selected is None,
    {
        proof {
            use_type_invariant(&*self);
        }
        self.selected_node = None;
    }

    /// A new diagram's nodes replace the shown ones; each node gets a style
    /// element filed under its name and server. Returns the keys of the style
    /// elements to create, one per node in table order.
    pub fn update_nodes(&mut self, nodes: Nodes) -> (res: Vec<NodeKey>)
        requires
            keys_match_nodes(nodes.0.pairs()),
        ensures
            final(self)@.nodes == nodes.0.pairs(),
            res@.len() == nodes.0.pairs().len(),
            forall|i: int| 0 <= i < res@.len() ==> #[trigger] res@[i]@ == nodes.0.pairs()[i].0,
            final(self)@.styled == add_keys(old(self)@.styled, res@.map_values(|k: NodeKey| k@)),
            final(self)@.states == old(self)@.states,
            final(self)@.selected == old(self)@.selected,
    {
        let n = nodes.0.len();
        let mut keys: Vec<NodeKey> = Vec::new();
        self.dia_nodes = Nodes::new();
        let mut styled = KeyTable::new();
        std::mem::swap(&mut styled, &mut self.styled);
        let ghost styled0 = styled.pairs();
        let mut i: usize = 0;
        assert(keys@.map_values(|k: NodeKey| k@) =~= Seq::<KeyView>::empty());
        while i < n
            invariant
                n == nodes.0.pairs().len(),
                keys_match_nodes(nodes.0.pairs()),
                i <= n,
                keys@.len() == i,
                forall|j: int| 0 <= j < i ==> #[trigger] keys@[j]@ == nodes.0.pairs()[j].0,
                styled.pairs() == add_keys(styled0, keys@.map_values(|k: NodeKey| k@)),
                forall|j: int|
                    0 <= j < i ==> styled.get_spec(#[trigger] nodes.0.pairs()[j].0) is Some,
            decreases n - i,
        {
            let node = nodes.0.value_at(i);
            let key = NodeKey(node.tname.clone(), node.server.clone());
            assert(key@ == nodes.0.pairs()[i as int].0);
            let ghost before = keys@.map_values(|k: NodeKey| k@);
            styled.insert(key.clone(), ());
            keys.push(key);
            assert(keys@.map_values(|k: NodeKey| k@) =~= before.push(nodes.0.pairs()[i as int].0));
            assert(keys@.map_values(|k: NodeKey| k@).drop_last() =~= before);
            i = i + 1;
        }
        self.styled = styled;
        self.dia_nodes = nodes;
        keys
    }

    /// The server is gone: the diagram is emptied and every style element is
    /// removed; the recorded container states stay.
    pub fn disconnect(&mut self)
        ensures
            final(self)@.nodes.len() == 0,
            final(self)@.styled.len() == 0,
            final(self)@.states == old(self)@.states,
            final(self)@.selected == old(self)@.selected,
    {
        self.dia_nodes = Nodes::new();
        self.styled = KeyTable::new();
    }

    /// Whether some reported container has the name `name`.
    fn any_named(containers: &Vec<Container>, name: &String) -> (res: bool)
        ensures
            res == named_in(containers@.map_values(|c: Container| c@), name@),
            res <==> exists|j: int| 0 <= j < containers@.len() && containers@[j].names@ == name@,
    {
        proof {
            let views = containers@.map_values(|c: Container| c@);
            if named_in(views, name@) {
                let j = choose|j: int| 0 <= j < views.len() && views[j].names == name@;
                assert(views[j] == containers@[j]@);
            }
            if exists|j: int| 0 <= j < containers@.len() && containers@[j].names@ == name@ {
                let j = choose|j: int| 0 <= j < containers@.len() && containers@[j].names@ == name@;
                assert(views[j] == containers@[j]@);
            }
        }
        let ghost views = containers@.map_values(|c: Container| c@);
        let n = containers.len();
        let mut i: usize = 0;
        while i < n
            invariant
                views == containers@.map_values(|c: Container| c@),
                n == views.len(),
                i <= n,
                forall|j: int| 0 <= j < i ==> views[j].names != name@,
            decreases n - i,
        {
            assert(views[i as int] == containers@[i as int]@);
            if containers[i].names == *name {
                return true;
            }
            i = i + 1;
        }
        false
    }

    /// The server `server` reports `containers`. Each reported container on
    /// the diagram is recorded as that container's last state and its node's
    /// style shows it available, coloured by its state; then each node whose
    /// name no container has is styled unavailable, where its name and
    /// `server` have a style element. Returns the style texts to set, in that
    /// order; each is for a key that has a style element.
    pub fn update_styles(&mut self, containers: &Vec<Container>, server: &str) -> (res: Vec<
        StyleUpdate,
    >)
        ensures
            res@.map_values(|u: StyleUpdate| u@) == available_updates(
                old(self)@.nodes,
                containers@.map_values(|c: Container| c@),
                server@,
            ) + unavailable_updates(
                old(self)@.nodes,
                old(self)@.styled,
                containers@.map_values(|c: Container| c@),
                server@,
            ),
            forall|i: int| 0 <= i < res@.len() ==> lookup(old(self)@.styled, #[trigger] res@[i].key@) is Some,
            final(self)@.states == recorded_states(
                old(self)@.states,
                old(self)@.nodes,
                containers@.map_values(|c: Container| c@),
                server@,
            ),
            final(self)@.nodes == old(self)@.nodes,
            final(self)@.styled == old(self)@.styled,
            final(self)@.selected == old(self)@.selected,
    {
        proof {
            use_type_invariant(&*self);
        }
        let ghost cviews = containers@.map_values(|c: Container| c@);
        let ghost nodes = self@.nodes;
        let ghost styled = self@.styled;
        let ghost states0 = self@.states;
        let mut updates: Vec<StyleUpdate> = Vec::new();
        let mut states = KeyTable::new();
        std::mem::swap(&mut states, &mut self.cur_state);
        let n = containers.len();
        let _ = self.dia_nodes.0.len();
        let mut i: usize = 0;
        assert(cviews.take(0) =~= Seq::<ContainerView>::empty());
        assert(updates@.map_values(|u: StyleUpdate| u@) =~= Seq::<(KeyView, Seq<char>)>::empty());
        while i < n
            invariant
                cviews == containers@.map_values(|c: Container| c@),
                n == cviews.len(),
                i <= n,
                nodes == self@.nodes,
                styled == self@.styled,
                dashboard_consistent(self@),
                crate::table::distinct_keys(nodes),
                updates@.map_values(|u: StyleUpdate| u@) == available_updates(
                    nodes,
                    cviews.take(i as int),
                    server@,
                ),
                forall|j: int| 0 <= j < updates@.len() ==> lookup(styled, #[trigger] updates@[j].key@) is Some,
                states.pairs() == recorded_states(states0, nodes, cviews.take(i as int), server@),
                self@.selected == old(self)@.selected,
            decreases n - i,
        {
            let c = &containers[i];
            let ghost prefix = cviews.take(i + 1);
            assert(prefix.drop_last() =~= cviews.take(i as int));
            assert(prefix.last() == c@);
            let key = NodeKey(c.names.clone(), server.to_owned());
            match self.dia_nodes.0.get(&key) {
                Some(node) => {
                    proof {
                        crate::table::lemma_lookup(nodes, key@);
                        let j = choose|j: int| 0 <= j < nodes.len() && nodes[j].0 == key@;
                        assert(lookup(styled, nodes[j].0) is Some);
                    }
                    let selector = cid_into_css_selector(node.cid);
                    let level = state_level_str(c.state.as_str());
                    let css = available_css_string(selector.as_str(), c.names.as_str(), level);
                    let ghost before = updates@.map_values(|u: StyleUpdate| u@);
                    updates.push(StyleUpdate { key: key.clone(), css });
                    assert(updates@.map_values(|u: StyleUpdate| u@) =~= before.push(
                        (key@, available_css(css_selector_seq(node.cid as nat), c.names@, state_level(c.state@))),
                    ));
                    states.insert(key, c.clone());
                },
                None => {},
            }
            i = i + 1;
        }
        assert(cviews.take(n as int) =~= cviews);
        self.cur_state = states;
        let ghost first_part = updates@.map_values(|u: StyleUpdate| u@);
        let m = self.dia_nodes.0.len();
        let mut j: usize = 0;
        assert(nodes.take(0) =~= Seq::<(KeyView, NodeView)>::empty());
        assert(updates@.map_values(|u: StyleUpdate| u@) =~= first_part + Seq::<(KeyView, Seq<char>)>::empty());
        while j < m
            invariant
                cviews == containers@.map_values(|c: Container| c@),
                m == nodes.len(),
                j <= m,
                nodes == self@.nodes,
                styled == self@.styled,
                dashboard_consistent(self@),
                updates@.map_values(|u: StyleUpdate| u@) == first_part + unavailable_updates(
                    nodes.take(j as int),
                    styled,
                    cviews,
                    server@,
                ),
                forall|k: int| 0 <= k < updates@.len() ==> lookup(styled, #[trigger] updates@[k].key@) is Some,
            decreases m - j,
        {
            let k = self.dia_nodes.0.key_at(j);
            let node = self.dia_nodes.0.value_at(j);
            let ghost prefix = nodes.take(j + 1);
            assert(prefix.drop_last() =~= nodes.take(j as int));
            assert(prefix.last() == nodes[j as int]);
            let ghost rest = unavailable_updates(nodes.take(j as int), styled, cviews, server@);
            if !Self::any_named(containers, &k.0) {
                let key = NodeKey(node.tname.clone(), server.to_owned());
                if self.styled.contains_key(&key) {
                    let selector = cid_into_css_selector(node.cid);
                    let css = unavailable_css_string(selector.as_str(), node.tname.as_str());
                    let ghost before = updates@.map_values(|u: StyleUpdate| u@);
                    updates.push(StyleUpdate { key, css });
                    assert(updates@.map_values(|u: StyleUpdate| u@) =~= before.push(
                        ((node.tname@, server@), unavailable_css(css_selector_seq(node.cid as nat), node.tname@)),
                    ));
                    assert(first_part + rest.push(
                        ((node.tname@, server@), unavailable_css(css_selector_seq(node.cid as nat), node.tname@)),
                    ) =~= (first_part + rest).push(
                        ((node.tname@, server@), unavailable_css(css_selector_seq(node.cid as nat), node.tname@)),
                    ));
                }
            }
            j = j + 1;
        }
        assert(nodes.take(m as int) =~= nodes);
        updates
    }

    /// The name of the first node whose container id is `cid`, or the empty
    /// text.
    fn name_with_cid_exec(&self, cid: u16) -> (res: String)
        ensures
            res@ == name_with_cid(self@.nodes, cid),
    {
        let ghost nodes = self@.nodes;
        let n = self.dia_nodes.0.len();
        let mut i: usize = 0;
        assert(nodes.skip(0) =~= nodes);
        while i < n
            invariant
                nodes == self@.nodes,
                n == nodes.len(),
                i <= n,
                name_with_cid(nodes, cid) == name_with_cid(nodes.skip(i as int), cid),
            decreases n - i,
        {
            let ghost rest = nodes.skip(i as int);
            assert(rest[0] == nodes[i as int]);
            assert(rest.drop_first() =~= nodes.skip(i + 1));
            if self.dia_nodes.0.value_at(i).cid == cid {
                return self.dia_nodes.0.key_at(i).0.clone();
            }
            i = i + 1;
        }
        assert(nodes.skip(n as int).len() == 0);
        String::new()
    }

    /// The container that a click describes, given the `transform` of the
    /// rendered node under the click: the id in the transform's rotation
    /// names the first node with that id, and the last recorded state of that
    /// node's container on the `ccdev.bdo.ru` server is described.
    pub fn tooltip_container(&self, transform: String) -> (res: Option<&Container>)
        ensures
            res matches Some(c) ==> lookup(
                self@.states,
                (name_with_cid(self@.nodes, svg_rotation_cid(transform@)), tooltip_server()),
            ) == Some(c@),
            res is None ==> lookup(
                self@.states,
                (name_with_cid(self@.nodes, svg_rotation_cid(transform@)), tooltip_server()),
            ) is None,
    {
        let id = parse_cid_from_svg_rotation(transform);
        let tname = self.name_with_cid_exec(id);
        let key = NodeKey(tname, "ccdev.bdo.ru".to_owned());
        self.cur_state.get(&key)
    }
}

} // verus!
