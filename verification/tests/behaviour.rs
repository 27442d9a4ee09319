use dockio::dashboard::{Dashboard, StyleUpdate};
use dockio::docker::{Container as DockerContainer, ContainerFront};
use dockio::model::{Container, DrawioNode, DrawioNodeType, NodeKey, Nodes, Orchestrator};
use dockio::mxfile::{
    decode_compressed_diagram, mxfile_is_uncompressed, nodes_from_objects, DiagramError, MxObject,
};
use dockio::page::{
    click_target_selector, is_termination_notice, rect_label_selector, websocket_url,
};
use dockio::text::{decimal_string, padded2_string, parse_u16, split_str, str_eq};
use dockio::tooltip::{class_name, Msg, Props};
use dockio::utils::{cid_into_css_selector, parse_cid_from_mxfile_rotation, parse_cid_from_svg_rotation};

const DIAGRAM_DATA: &str = "dZLBcoQgDIafhjvK2um5drt76clDzyip0EFxkK3apy8IqIztxUm+/JD4B0TKbr5pOvB3xUCiHLMZkVeU58VTYb8OLB5csosHrRbMo2wHlfiBAHGgD8FgTIRGKWnEkMJG9T00JmFUazWlsk8l064DbeEEqobKM/0QzHBPnwu88zuIlsfOGQ6VjkZxACOnTE0HRK6IlFop46NuLkE676Iv/tzbP9VtMA29+eOAqr+cHzmWtLYrWQVxstGA9qSWPlkL8ep8m27rOpolOqLVo2fgpBiRl4kLA9VAG1ed7BOwjJvONcxseB4yzP0N2sB8QKHfDVQHRi9WMqcvYUnTad9GRPy4iMBo2H+73btbZIPwgzENpsV0X84qPbxwcv0F";

fn s(x: &str) -> String {
    x.to_string()
}

fn object(t: Option<&str>, tname: Option<&str>, server: Option<&str>, style: Option<&str>) -> MxObject {
    MxObject {
        node_type: t.map(s),
        tname: tname.map(s),
        server: server.map(s),
        style: style.map(s),
    }
}

fn container(names: &str, state: &str) -> Container {
    Container {
        image: s("img"),
        names: s(names),
        ports: s(""),
        running_for: s("1 hour"),
        size: s("0B"),
        state: s(state),
        status: s("Up"),
    }
}

// --- text -------------------------------------------------------------------

#[test]
fn split_matches_std_split() {
    for (text, pat) in [
        ("a;b;;c;", ";"),
        ("", ";"),
        ("no separator", ";"),
        ("xrotatey(rotate", "rotate"),
        ("aaa", "aa"),
        ("...", "."),
    ] {
        let expected: Vec<String> = text.split(pat).map(|p| p.to_string()).collect();
        assert_eq!(split_str(text, pat), expected);
    }
}

#[test]
fn parse_u16_follows_std_parse() {
    for text in ["0", "42", "+5", "+", "", "-5", "65535", "65536", "007", "1a", "++1", " 1", "99999999999"] {
        assert_eq!(parse_u16(text), text.parse::<u16>().ok(), "{text}");
    }
}

#[test]
fn decimal_text_reads_back() {
    for n in [0u16, 7, 10, 99, 100, 12345, 65535] {
        assert_eq!(decimal_string(n), format!("{}", n));
        assert_eq!(parse_u16(&decimal_string(n)), Some(n));
        assert_eq!(padded2_string(n), format!("{:02}", n));
    }
}

#[test]
fn str_eq_compares_text() {
    assert!(str_eq("running", "running"));
    assert!(!str_eq("running", "runnin"));
    assert!(!str_eq("exited", "running"));
}

// --- container ids -----------------------------------------------------------

#[test]
fn mxfile_rotation_cid_examples() {
    assert_eq!(parse_cid_from_mxfile_rotation(s("rounded=0;whiteSpace=wrap;html=1;rotation=0.001429;")), 42);
    assert_eq!(parse_cid_from_mxfile_rotation(s("rotation=0.001079")), 7);
    assert_eq!(parse_cid_from_mxfile_rotation(s("rounded=0;whiteSpace=wrap;")), 0);
    assert_eq!(parse_cid_from_mxfile_rotation(s("rotation=45")), 4);
    assert_eq!(parse_cid_from_mxfile_rotation(s("rotation=abc")), 0);
    assert_eq!(parse_cid_from_mxfile_rotation(s("rotation=1.65536")), 0);
    assert_eq!(parse_cid_from_mxfile_rotation(s("rotation=+0.001429")), 42);
    assert_eq!(parse_cid_from_mxfile_rotation(s("")), 0);
    assert_eq!(parse_cid_from_mxfile_rotation(s("rotation=0.001119;rotation=0.001229")), 11);
}

#[test]
fn svg_rotation_cid_examples() {
    assert_eq!(parse_cid_from_svg_rotation(s("rotate(0.001429 50 60)")), 42);
    assert_eq!(parse_cid_from_svg_rotation(s("rotate(0.001429)")), 0);
    assert_eq!(parse_cid_from_svg_rotation(s("translate(1,2)")), 0);
    assert_eq!(parse_cid_from_svg_rotation(s("rotate(0.001429,50,60)")), 0);
    assert_eq!(parse_cid_from_svg_rotation(s("translate(1 2) rotate(0.001059 3 4)")), 5);
}

#[test]
fn css_selector_examples() {
    assert_eq!(cid_into_css_selector(7), ":has(+ g[transform*='0.001079'])");
    assert_eq!(cid_into_css_selector(42), ":has(+ g[transform*='0.001429'])");
    assert_eq!(cid_into_css_selector(123), ":has(+ g[transform*='0.0011239'])");
}

#[test]
fn cid_encoding_reads_back() {
    for cid in 0u16..100 {
        let value = format!("0.001{:02}9", cid);
        assert_eq!(parse_cid_from_mxfile_rotation(format!("rotation={};html=1", value)), cid);
        assert_eq!(parse_cid_from_svg_rotation(format!("rotate({} 1 2)", value)), cid);
        assert!(cid_into_css_selector(cid).contains(&value));
    }
}

// --- keys and node kinds -------------------------------------------------------

#[test]
fn node_key_text_round_trip() {
    let key = NodeKey(s("app"), s("host"));
    assert_eq!(key.to_key_string(), "app-host");
    assert_eq!(NodeKey::from_key_string(&key.to_key_string()), key);
    assert_eq!(NodeKey::from_key_string("a-b-c"), NodeKey(s(""), s("")));
    assert_eq!(NodeKey::from_key_string("nodash"), NodeKey(s(""), s("")));
    assert_eq!(NodeKey::from_key_string("a-"), NodeKey(s("a"), s("")));
    let dashed = NodeKey(s("a-b"), s("c"));
    assert_eq!(NodeKey::from_key_string(&dashed.to_key_string()), NodeKey(s(""), s("")));
}

#[test]
fn node_type_from_str() {
    assert_eq!(DrawioNodeType::from_str("gitlab-repo"), Ok(DrawioNodeType::GitLabRepo));
    assert_eq!(DrawioNodeType::from_str("docker-container"), Ok(DrawioNodeType::DockerContainer));
    assert_eq!(DrawioNodeType::from_str("systemd-service"), Ok(DrawioNodeType::SystemDService));
    assert_eq!(DrawioNodeType::from_str("Docker-Container"), Err(()));
    assert_eq!(DrawioNodeType::from_str(""), Err(()));
    assert_eq!("systemd-service".parse::<DrawioNodeType>(), Ok(DrawioNodeType::SystemDService));
    assert_ne!(Orchestrator::Docker, Orchestrator::SystemD);
}

#[test]
fn container_front_keeps_shown_fields() {
    let c = DockerContainer {
        command: s("run"),
        created_at: s("2023"),
        id: s("a744d4d275e3"),
        image: s("task-tracker"),
        labels: s("l"),
        local_volumes: s("0"),
        mounts: s(""),
        names: s("task-tracker_task-tracker_1"),
        networks: s("net"),
        ports: s("0.0.0.0:10040->3000/tcp"),
        running_for: s("20 minutes ago"),
        size: s("0B"),
        state: s("running"),
        status: s("Up 20 minutes"),
    };
    let expected = ContainerFront {
        image: s("task-tracker"),
        names: s("task-tracker_task-tracker_1"),
        ports: s("0.0.0.0:10040->3000/tcp"),
        running_for: s("20 minutes ago"),
        size: s("0B"),
        state: s("running"),
        status: s("Up 20 minutes"),
    };
    assert_eq!(ContainerFront::from(&c), expected);
    let front: ContainerFront = c.into();
    assert_eq!(front, expected);
}

// --- diagram decoding -----------------------------------------------------------

#[test]
fn compressed_diagram_decodes() {
    let text = decode_compressed_diagram(DIAGRAM_DATA).unwrap();
    assert_eq!(text.len(), 756);
    assert!(text.starts_with("%3CmxGraphModel%20dx%3D%22565%22"));
    assert!(text.ends_with("%3C%2Froot%3E%3C%2FmxGraphModel%3E"));
    assert_eq!(decode_compressed_diagram("S9RNUjUySAYA"), Ok(s("a-b%20c")));
}

#[test]
fn compressed_diagram_errors() {
    assert_eq!(decode_compressed_diagram("not base64!"), Err(DiagramError::InvalidBase64));
    assert_eq!(decode_compressed_diagram("//8="), Err(DiagramError::InvalidCompressedText));
    assert_eq!(decode_compressed_diagram("+/8PAA=="), Err(DiagramError::InvalidCompressedText));
}

#[test]
fn uncompressed_content_is_recognised() {
    assert!(mxfile_is_uncompressed("<mxfile><diagram><mxGraphModel dx=\"1\"/></diagram></mxfile>"));
    assert!(!mxfile_is_uncompressed(&format!("<mxfile><diagram>{}</diagram></mxfile>", DIAGRAM_DATA)));
}

#[test]
fn nodes_from_diagram_objects() {
    let objects = vec![
        object(Some("docker-container"), Some("web"), Some("host"), Some("rounded=0;rotation=0.001429;")),
        object(None, Some("ignored"), Some("host"), None),
        object(Some("printer"), Some("ignored"), Some("host"), None),
        object(Some("systemd-service"), None, None, None),
        object(Some("gitlab-repo"), Some("web"), Some("host"), Some("rotation=0.001079")),
    ];
    let nodes = nodes_from_objects(&objects);
    assert!(nodes.keys_match());
    assert_eq!(nodes.0.len(), 2);
    let web = nodes.0.get(&NodeKey(s("web"), s("host"))).unwrap();
    assert_eq!(web.cid, 7);
    assert_eq!(web.node_type, DrawioNodeType::GitLabRepo);
    let unnamed = nodes.0.get(&NodeKey(s(""), s(""))).unwrap();
    assert_eq!(unnamed.cid, 0);
    assert_eq!(unnamed.node_type, DrawioNodeType::SystemDService);
    assert!(!nodes.0.contains_key(&NodeKey(s("ignored"), s("host"))));
    assert_eq!(nodes.0.key_at(0), &NodeKey(s("web"), s("host")));
}

#[test]
fn mismatched_keys_are_detected() {
    let mut nodes = Nodes::new();
    nodes.0.insert(
        NodeKey(s("a"), s("b")),
        DrawioNode { tname: s("x"), cid: 1, server: s("b"), node_type: DrawioNodeType::DockerContainer },
    );
    assert!(!nodes.keys_match());
}

// --- the page's decisions ----------------------------------------------------------

fn diagram() -> Nodes {
    nodes_from_objects(&vec![
        object(Some("docker-container"), Some("web"), Some("srv"), Some("rotation=0.001429")),
        object(Some("docker-container"), Some("db"), Some("srv"), Some("rotation=0.001079")),
    ])
}

fn available(selector: &str, tname: &str, level: &str) -> String {
    format!(
        "{} {{\n                            /* container {} available */\n                            filter: invert({}%) sepia({}%) saturate(1352%) hue-rotate({}deg) brightness(119%) contrast(119%);\n                        }}",
        selector, tname, level, level, level
    )
}

fn unavailable(selector: &str, tname: &str) -> String {
    format!(
        "{} {{\n                            /* container {} not available */\n                            filter: brightness(11%) contrast(11%);\n                        }}",
        selector, tname
    )
}

fn texts(updates: &[StyleUpdate]) -> Vec<(String, String, String)> {
    updates.iter().map(|u| (u.key.0.clone(), u.key.1.clone(), u.css.clone())).collect()
}

#[test]
fn styles_follow_reported_containers() {
    let mut page = Dashboard::new();
    let keys = page.update_nodes(diagram());
    assert_eq!(keys, vec![NodeKey(s("web"), s("srv")), NodeKey(s("db"), s("srv"))]);
    let updates = page.update_styles(&vec![container("web", "running"), container("other", "running")], "srv");
    assert_eq!(
        texts(&updates),
        vec![
            (s("web"), s("srv"), available(":has(+ g[transform*='0.001429'])", "web", "100")),
            (s("db"), s("srv"), unavailable(":has(+ g[transform*='0.001079'])", "db")),
        ]
    );
    let updates = page.update_styles(&vec![container("db", "exited"), container("web", "exited")], "srv");
    assert_eq!(
        texts(&updates),
        vec![
            (s("db"), s("srv"), available(":has(+ g[transform*='0.001079'])", "db", "2")),
            (s("web"), s("srv"), available(":has(+ g[transform*='0.001429'])", "web", "2")),
        ]
    );
}

#[test]
fn other_server_gets_no_available_styles() {
    let mut page = Dashboard::new();
    page.update_nodes(diagram());
    let updates = page.update_styles(&vec![container("web", "running")], "elsewhere");
    assert!(updates.is_empty());
}

#[test]
fn disconnect_clears_the_diagram() {
    let mut page = Dashboard::new();
    page.update_nodes(diagram());
    page.disconnect();
    let updates = page.update_styles(&vec![container("web", "running")], "srv");
    assert!(updates.is_empty());
    page.clean_diagram();
    assert!(page.is_consistent());
}

#[test]
fn tooltip_describes_the_clicked_container() {
    let mut page = Dashboard::new();
    page.update_nodes(nodes_from_objects(&vec![object(
        Some("docker-container"),
        Some("web"),
        Some("ccdev.bdo.ru"),
        Some("rotation=0.001429"),
    )]));
    assert!(page.tooltip_container(s("rotate(0.001429 1 2)")).is_none());
    page.update_styles(&vec![container("web", "running")], "ccdev.bdo.ru");
    let shown = page.tooltip_container(s("rotate(0.001429 1 2)")).unwrap();
    assert_eq!(shown, &container("web", "running"));
    page.update_styles(&vec![container("web", "exited"), container("web", "paused")], "ccdev.bdo.ru");
    assert_eq!(page.tooltip_container(s("rotate(0.001429 1 2)")).unwrap().state, "paused");
    assert!(page.tooltip_container(s("rotate(0.001079 1 2)")).is_none());
}

#[test]
fn page_texts() {
    assert_eq!(websocket_url("example.org"), "ws://example.org:8081");
    assert!(is_termination_notice("Terminated"));
    assert!(!is_termination_notice("[]"));
    assert_eq!(
        rect_label_selector("10", "20"),
        "[x='10'][y='20'] + g > switch > foreignObject > div > div > div"
    );
    assert_eq!(click_target_selector("10", "0"), Some(s("[x='10'][y='0'] + g")));
    assert_eq!(click_target_selector("0", "0"), None);
}

#[test]
fn tooltip_messages() {
    let props = |text: &str| Props { x: s("0"), y: s("0"), text: s(text) };
    assert_eq!(props("a").change_message(&props("a")), None);
    assert_eq!(props("a").change_message(&props("")), Some(Msg::Show));
    assert_eq!(props("").change_message(&props("a")), Some(Msg::Hide));
    assert_eq!(class_name(Msg::Show), "visible");
    assert_eq!(class_name(Msg::Hide), "hidden");
}

#[test]
fn key_table_replaces_in_place() {
    let mut table = dockio::table::KeyTable::new();
    table.insert(NodeKey(s("a"), s("x")), 1u16);
    table.insert(NodeKey(s("b"), s("x")), 2u16);
    table.insert(NodeKey(s("a"), s("x")), 3u16);
    assert_eq!(table.len(), 2);
    assert_eq!(table.key_at(0), &NodeKey(s("a"), s("x")));
    assert_eq!(*table.value_at(0), 3);
    assert_eq!(table.get(&NodeKey(s("b"), s("x"))), Some(&2));
    assert_eq!(table.get(&NodeKey(s("b"), s("y"))), None);
    assert_eq!(table.position(&NodeKey(s("b"), s("x"))), Some(1));
}

#[test]
fn page_state_reads_back() {
    let mut page = Dashboard::new();
    page.update_nodes(diagram());
    assert_eq!(page.nodes().0.len(), 2);
    page.update_styles(&vec![container("db", "running"), container("nope", "running")], "srv");
    let states = page.states();
    assert_eq!(states.len(), 1);
    assert_eq!(states.key_at(0), &NodeKey(s("db"), s("srv")));
    assert_eq!(states.value_at(0), &container("db", "running"));
}
