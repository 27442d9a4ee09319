//! The data of the diagram front end: the nodes that a draw.io diagram
//! declares, keyed by container name and server, and the containers that a
//! server reports.

use vstd::prelude::*;

use crate::table::KeyTable;
use crate::text::{split_spec, split_str, str_eq};

verus! {

/// A `NodeKey` taken by its view: (container name, server).
pub type KeyView = (Seq<char>, Seq<char>);

/// The key of a diagram node: its container name and its server.
#[derive(Debug, PartialEq, Eq, Hash)]
pub struct NodeKey(pub String, pub String);

impl View for NodeKey {
    type V = KeyView;

    open spec fn view(&self) -> KeyView {
        (self.0@, self.1@)
    }
}

impl Clone for NodeKey {
    fn clone(&self) -> (res: Self)
        ensures
            res == *self,
    {
        NodeKey(self.0.clone(), self.1.clone())
    }
}

/// The text of a key: the name and the server joined by `-`.
pub open spec fn key_text(k: KeyView) -> Seq<char> {
    k.0 + "-"@ + k.1
}

/// The key that a key text stands for: the two pieces around its single
/// `-`; a text that does not split into exactly two pieces at `-` gives the
/// key of two empty texts.
pub open spec fn key_of_text(s: Seq<char>) -> KeyView {
    let parts = split_spec(s, "-"@);
    if parts.len() == 2 {
        (parts[0], parts[1])
    } else {
        (Seq::empty(), Seq::empty())
    }
}

/// A key whose name and server hold no `-` reads back from its text as
/// itself.
pub proof fn lemma_key_text_roundtrip(k: KeyView)
    requires
        !k.0.contains('-'),
        !k.1.contains('-'),
    ensures
        key_of_text(key_text(k)) == k,
{
    reveal_strlit("-");
    let s = key_text(k);
    let a = k.0;
    let b = k.1;
    assert(s =~= a + seq!['-'] + b);
    assert forall|i: int| 0 <= i < a.len() implies s[i] != '-' by {
        assert(s[i] == a[i]);
    }
    assert(s[a.len() as int] == '-');
    crate::text::lemma_split_from_first_separator(s, '-', 0, a.len() as int);
    assert forall|i: int| a.len() + 1 <= i < s.len() implies s[i] != '-' by {
        assert(s[i] == b[i - a.len() - 1]);
    }
    crate::text::lemma_split_from_no_separator(s, '-', (a.len() + 1) as int);
    assert(s.subrange(0, a.len() as int) =~= a);
    assert(s.subrange((a.len() + 1) as int, s.len() as int) =~= b);
    assert("-"@ =~= seq!['-']);
    let parts = split_spec(s, "-"@);
    assert(parts == seq![a] + seq![b]);
    assert(parts =~= seq![a, b]);
}

impl NodeKey {
    /// The text of this key, `name-server`.
    pub fn to_key_string(&self) -> (res: String)
        ensures
            res@ == key_text(self@),
    {
        let mut res = self.0.clone();
        res.append("-");
        res.append(self.1.as_str());
        res
    }

    /// The key written as `name-server`; any other text gives the key of
    /// two empty texts.
    pub fn from_key_string(s: &str) -> (res: NodeKey)
        ensures
            res@ == key_of_text(s@),
    {
        proof {
            reveal_strlit("-");
        }
        let parts = split_str(s, "-");
        proof {
            assert(parts@.map_values(|p: String| p@).len() == parts@.len());
        }
        if parts.len() != 2 {
            NodeKey(String::new(), String::new())
        } else {
            proof {
                assert(parts@.map_values(|p: String| p@)[0] == parts@[0]@);
                assert(parts@.map_values(|p: String| p@)[1] == parts@[1]@);
            }
            NodeKey(parts[0].clone(), parts[1].clone())
        }
    }
}

/// The kind of thing that a diagram node stands for.
#[derive(Debug, Clone, Copy, PartialEq, Eq, Structural)]
pub enum DrawioNodeType {
    GitLabRepo,
    DockerContainer,
    SystemDService,
}

/// The node kind that a diagram's `type` attribute names, if any.
pub open spec fn node_type_of(s: Seq<char>) -> Option<DrawioNodeType> {
    if s == "gitlab-repo"@ {
        Some(DrawioNodeType::GitLabRepo)
    } else if s == "docker-container"@ {
        Some(DrawioNodeType::DockerContainer)
    } else if s == "systemd-service"@ {
        Some(DrawioNodeType::SystemDService)
    } else {
        None
    }
}

impl DrawioNodeType {
    /// The node kind named by `s`: `gitlab-repo`, `docker-container` or
    /// `systemd-service`; any other text is refused.
    pub fn from_str(s: &str) -> (res: Result<DrawioNodeType, ()>)
        ensures
            res matches Ok(t) ==> node_type_of(s@) == Some(t),
            res is Err <==> node_type_of(s@) is None,
    {
        if str_eq(s, "gitlab-repo") {
            Ok(DrawioNodeType::GitLabRepo)
        } else if str_eq(s, "docker-container") {
            Ok(DrawioNodeType::DockerContainer)
        } else if str_eq(s, "systemd-service") {
            Ok(DrawioNodeType::SystemDService)
        } else {
            Err(())
        }
    }
}

impl std::str::FromStr for DrawioNodeType {
    type Err = ();

    fn from_str(s: &str) -> (res: Result<DrawioNodeType, ()>)
        ensures
            res matches Ok(t) ==> node_type_of(s@) == Some(t),
            res is Err <==> node_type_of(s@) is None,
    {
        DrawioNodeType::from_str(s)
    }
}

/// A node of the diagram: the container it shows, the id by which the
/// diagram's rendering marks it, its server and its kind.
#[derive(Debug)]
pub struct DrawioNode {
    pub tname: String,
    pub cid: u16,
    pub server: String,
    pub node_type: DrawioNodeType,
}

/// A diagram node taken by its view.
pub struct NodeView {
    pub tname: Seq<char>,
    pub cid: u16,
    pub server: Seq<char>,
    pub node_type: DrawioNodeType,
}

impl View for DrawioNode {
    type V = NodeView;

    open spec fn view(&self) -> NodeView {
        NodeView {
            tname: self.tname@,
            cid: self.cid,
            server: self.server@,
            node_type: self.node_type,
        }
    }
}

impl Clone for DrawioNode {
    fn clone(&self) -> (res: Self)
        ensures
            res == *self,
    {
        DrawioNode {
            tname: self.tname.clone(),
            cid: self.cid,
            server: self.server.clone(),
            node_type: self.node_type,
        }
    }
}

/// The nodes of a diagram, by key.
pub struct Nodes(pub KeyTable<DrawioNode>);

/// Every entry of `pairs` is filed under its own node's name and server.
pub open spec fn keys_match_nodes(pairs: Seq<(KeyView, NodeView)>) -> bool {
    forall|i: int|
        0 <= i < pairs.len() ==> #[trigger] pairs[i].0 == (pairs[i].1.tname, pairs[i].1.server)
}

impl Nodes {
    /// A diagram without nodes.
    pub fn new() -> (res: Nodes)
        ensures
            res.0.pairs() == Seq::<(KeyView, NodeView)>::empty(),
    {
        Nodes(KeyTable::new())
    }

    /// Whether every node is filed under its own name and server, as the
    /// diagram decoder files them.
    pub fn keys_match(&self) -> (res: bool)
        ensures
            res == keys_match_nodes(self.0.pairs()),
    {
        let n = self.0.len();
        let mut i: usize = 0;
        while i < n
            invariant
                n == self.0.pairs().len(),
                i <= n,
                forall|j: int|
                    0 <= j < i ==> #[trigger] self.0.pairs()[j].0 == (
                        self.0.pairs()[j].1.tname,
                        self.0.pairs()[j].1.server,
                    ),
            decreases n - i,
        {
            let k = self.0.key_at(i);
            let node = self.0.value_at(i);
            if !(k.0 == node.tname && k.1 == node.server) {
                return false;
            }
            i = i + 1;
        }
        true
    }
}

/// The containers that a server reports.
pub type Containers = Vec<Container>;

/// The state of one container as the server reports it.
#[derive(Default, Debug, PartialEq)]
pub struct Container {
    pub image: String,
    pub names: String,
    pub ports: String,
    pub running_for: String,
    pub size: String,
    pub state: String,
    pub status: String,
}

/// A reported container taken by its view.
pub struct ContainerView {
    pub image: Seq<char>,
    pub names: Seq<char>,
    pub ports: Seq<char>,
    pub running_for: Seq<char>,
    pub size: Seq<char>,
    pub state: Seq<char>,
    pub status: Seq<char>,
}

impl View for Container {
    type V = ContainerView;

    open spec fn view(&self) -> ContainerView {
        ContainerView {
            image: self.image@,
            names: self.names@,
            ports: self.ports@,
            running_for: self.running_for@,
            size: self.size@,
            state: self.state@,
            status: self.status@,
        }
    }
}

impl Clone for Container {
    fn clone(&self) -> (res: Self)
        ensures
            res == *self,
    {
        Container {
            image: self.image.clone(),
            names: self.names.clone(),
            ports: self.ports.clone(),
            running_for: self.running_for.clone(),
            size: self.size.clone(),
            state: self.state.clone(),
            status: self.status.clone(),
        }
    }
}

/// The kinds of service manager that run what a diagram shows.
#[derive(Debug, Clone, Copy, PartialEq, Eq, Hash, Structural)]
pub enum Orchestrator {
    SystemD,
    Docker,
}

} // verus!
