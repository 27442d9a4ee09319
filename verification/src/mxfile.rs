//! Decoding a draw.io diagram: the compressed diagram text inside an
//! `mxfile`, and the nodes that the diagram's `<object>` elements declare.

use vstd::prelude::*;

use crate::model::{node_type_of, keys_match_nodes, DrawioNode, DrawioNodeType, KeyView, NodeKey, NodeView, Nodes};
use crate::table::{distinct_keys, insert_entry, key_index, lemma_insert_entry, lemma_key_index_from, lookup};
use crate::text::{contains_str, matches_at, split_spec};
use crate::utils::{
    lemma_mxfile_rotation_after_entries, mxfile_rotation_cid, parse_cid_from_mxfile_rotation,
    rotation_value_seq, strip_first,
};

verus! {

// ---------------------------------------------------------------------------
// Compressed diagram text
// ---------------------------------------------------------------------------

#[verifier::external_type_specification]
#[verifier::external_body]
pub struct ExDecodeError(base64::DecodeError);

/// The bytes that the standard base64 alphabet with padding decodes `text`
/// to, or `None` where `text` is not valid such base64.
pub uninterp spec fn standard_base64_decoding(text: Seq<char>) -> Option<Seq<u8>>;

/// The UTF-8 text that the raw DEFLATE stream `data` inflates to, or `None`
/// where `data` is not a valid stream or does not inflate to UTF-8.
pub uninterp spec fn raw_inflated_text(data: Seq<u8>) -> Option<Seq<char>>;

/// Calls `base64::Engine::decode` with `base64::engine::general_purpose::STANDARD`.
/// Claims: the decoded bytes on success and an error on failure are both a
/// function of the input text alone, named `standard_base64_decoding`.
#[verifier::external_body]
fn decode_standard_base64(text: &str) -> (res: Result<Vec<u8>, base64::DecodeError>)
    ensures
        res matches Ok(bytes) ==> standard_base64_decoding(text@) == Some(bytes@),
        res is Err ==> standard_base64_decoding(text@) is None,
{
    base64::Engine::decode(&base64::engine::general_purpose::STANDARD, text)
}

/// Reads `data` to the end through `flate2::read::DeflateDecoder::new` and
/// `std::io::Read::read_to_string`.
/// Claims: the text read on success, and failure otherwise, are a function of
/// the input bytes alone, named `raw_inflated_text`.
#[verifier::external_body]
fn inflate_raw_text(data: &[u8]) -> (res: Option<String>)
    ensures
        res matches Some(text) ==> raw_inflated_text(data@) == Some(text@),
        res is None ==> raw_inflated_text(data@) is None,
{
    let mut decoder = flate2::read::DeflateDecoder::new(data);
    let mut text = String::new();
    match std::io::Read::read_to_string(&mut decoder, &mut text) {
        Ok(_) => Some(text),
        Err(_) => None,
    }
}

/// Why a compressed diagram could not be decoded.
#[derive(Debug, Clone, Copy, PartialEq, Eq, Structural)]
pub enum DiagramError {
    /// The diagram data is not standard base64.
    InvalidBase64,
    /// The decoded bytes are not a raw DEFLATE stream of UTF-8 text.
    InvalidCompressedText,
}

/// The `mxfile` content holds the diagram model as plain text (draw.io's
/// `compressed=false`) rather than compressed.
pub fn mxfile_is_uncompressed(content: &str) -> (res: bool)
    ensures
        res == (exists|i: int| matches_at(content@, "mxGraphModel"@, i)),
{
    proof {
        reveal_strlit("mxGraphModel");
    }
    contains_str(content, "mxGraphModel")
}

/// The text of a compressed diagram: base64, then raw DEFLATE.
pub fn decode_compressed_diagram(data: &str) -> (res: Result<String, DiagramError>)
    ensures
        res matches Ok(text) ==> (standard_base64_decoding(data@) matches Some(bytes)
            && raw_inflated_text(bytes) == Some(text@)),
        res == Err::<String, DiagramError>(DiagramError::InvalidBase64) <==> standard_base64_decoding(
            data@,
        ) is None,
        res == Err::<String, DiagramError>(DiagramError::InvalidCompressedText) <==> (
        standard_base64_decoding(data@) matches Some(bytes) && raw_inflated_text(bytes) is None),
{
    let bytes = match decode_standard_base64(data) {
        Ok(bytes) => bytes,
        Err(_) => {
            return Err(DiagramError::InvalidBase64);
        },
    };
    match inflate_raw_text(bytes.as_slice()) {
        Some(text) => Ok(text),
        None => Err(DiagramError::InvalidCompressedText),
    }
}

// ---------------------------------------------------------------------------
// Nodes of the diagram
// ---------------------------------------------------------------------------

/// What the decoder reads of one `<object>` of the diagram: its `type`,
/// `tname` and `server` attributes and the `style` of its first `mxCell`,
/// each absent where the element has no such attribute.
#[derive(Debug)]
pub struct MxObject {
    pub node_type: Option<String>,
    pub tname: Option<String>,
    pub server: Option<String>,
    pub style: Option<String>,
}

/// An attribute's text, or the empty text where it is absent.
pub open spec fn text_or_empty(attr: Option<String>) -> Seq<char> {
    match attr {
        Some(s) => s@,
        None => Seq::empty(),
    }
}

/// The entry that an object declares: none where its `type` names no node
/// kind; else the node filed under its name and server, with the container id
/// of its style.
pub open spec fn object_entry(o: MxObject) -> Option<(KeyView, NodeView)> {
    match node_type_of(text_or_empty(o.node_type)) {
        Some(t) => {
            let tname = text_or_empty(o.tname);
            let server = text_or_empty(o.server);
            Some(
                (
                    (tname, server),
                    NodeView {
                        tname,
                        cid: mxfile_rotation_cid(text_or_empty(o.style)),
                        server,
                        node_type: t,
                    },
                ),
            )
        },
        None => None,
    }
}

/// The node table that the objects declare, taken in document order: a later
/// object with the same name and server replaces the earlier one's node.
pub open spec fn nodes_of_objects(objects: Seq<MxObject>) -> Seq<(KeyView, NodeView)>
    decreases objects.len(),
{
    if objects.len() == 0 {
        Seq::empty()
    } else {
        let prev = nodes_of_objects(objects.drop_last());
        match object_entry(objects.last()) {
            Some(e) => insert_entry(prev, e.0, e.1),
            None => prev,
        }
    }
}

/// Storing a node under its own name and server keeps every node filed under
/// its own name and server.
pub proof fn lemma_insert_keeps_keys_matching(
    entries: Seq<(KeyView, NodeView)>,
    k: KeyView,
    v: NodeView,
)
    requires
        keys_match_nodes(entries),
        k == (v.tname, v.server),
    ensures
        keys_match_nodes(insert_entry(entries, k, v)),
{
    lemma_key_index_from(entries, k, 0);
    let after = insert_entry(entries, k, v);
    assert forall|i: int| 0 <= i < after.len() implies #[trigger] after[i].0 == (
        after[i].1.tname,
        after[i].1.server,
    ) by {
        match key_index(entries, k) {
            Some(j) => {
                if i != j {
                    assert(after[i] == entries[i]);
                }
            },
            None => {
                if i < entries.len() {
                    assert(after[i] == entries[i]);
                }
            },
        }
    }
}

/// The decoder files every node under its own name and server.
pub proof fn lemma_nodes_of_objects_keys_match(objects: Seq<MxObject>)
    ensures
        keys_match_nodes(nodes_of_objects(objects)),
    decreases objects.len(),
{
    if objects.len() > 0 {
        lemma_nodes_of_objects_keys_match(objects.drop_last());
        let prev = nodes_of_objects(objects.drop_last());
        if let Some(e) = object_entry(objects.last()) {
            lemma_insert_keeps_keys_matching(prev, e.0, e.1);
        }
    }
}

/// The decoder never files two nodes under one key.
pub proof fn lemma_nodes_of_objects_distinct(objects: Seq<MxObject>)
    ensures
        distinct_keys(nodes_of_objects(objects)),
    decreases objects.len(),
{
    if objects.len() > 0 {
        lemma_nodes_of_objects_distinct(objects.drop_last());
        let prev = nodes_of_objects(objects.drop_last());
        if let Some(e) = object_entry(objects.last()) {
            lemma_insert_entry(prev, e.0, e.1);
        }
    }
}

/// The last object of a diagram whose `type` names a node kind is decoded,
/// under its `tname` and `server`, to a node of that kind whose container id
/// is the `XX` of the `rotation=0.001XX9` entry of its style, wherever that
/// entry stands among the style's entries (after any whole non-rotation
/// entries, before any others).
pub proof fn lemma_decoded_node_carries_rotation_id(
    objects: Seq<MxObject>,
    pre: Seq<char>,
    cid: u16,
    tail: Seq<char>,
)
    requires
        objects.len() > 0,
        node_type_of(text_or_empty(objects.last().node_type)) is Some,
        text_or_empty(objects.last().style) == pre + "rotation="@ + rotation_value_seq(cid as nat)
            + tail,
        cid < 100,
        tail.len() == 0 || tail[0] == ';',
        pre.len() == 0 || pre.last() == ';',
        strip_first(split_spec(pre, ";"@), "rotation="@) is None,
    ensures
        lookup(
            nodes_of_objects(objects),
            (text_or_empty(objects.last().tname), text_or_empty(objects.last().server)),
        ) matches Some(node) && {
            &&& node.cid == cid
            &&& node.tname == text_or_empty(objects.last().tname)
            &&& node.server == text_or_empty(objects.last().server)
            &&& node_type_of(text_or_empty(objects.last().node_type)) == Some(node.node_type)
        },
{
    lemma_mxfile_rotation_after_entries(pre, cid, tail);
    lemma_nodes_of_objects_distinct(objects.drop_last());
    let e = object_entry(objects.last())->0;
    lemma_insert_entry(nodes_of_objects(objects.drop_last()), e.0, e.1);
}

/// An attribute's text, or the empty text where it is absent.
fn attr_text(attr: &Option<String>) -> (res: String)
    ensures
        res@ == text_or_empty(*attr),
{
    match attr {
        Some(s) => s.clone(),
        None => String::new(),
    }
}

/// The nodes that the diagram's objects declare: objects whose `type` is no
/// node kind are skipped; each other one becomes a node filed under its
/// `tname` and `server` (empty where absent), carrying the container id of
/// its style's rotation.
pub fn nodes_from_objects(objects: &Vec<MxObject>) -> (res: Nodes)
    ensures
        res.0.pairs() == nodes_of_objects(objects@),
        keys_match_nodes(res.0.pairs()),
{
    let mut nodes = Nodes::new();
    let n = objects.len();
    let mut i: usize = 0;
    assert(objects@.take(0) =~= Seq::<MxObject>::empty());
    while i < n
        invariant
            n == objects@.len(),
            i <= n,
            nodes.0.pairs() == nodes_of_objects(objects@.take(i as int)),
        decreases n - i,
    {
        let o = &objects[i];
        let ghost prefix = objects@.take(i + 1);
        assert(prefix.drop_last() =~= objects@.take(i as int));
        assert(prefix.last() == *o);
        let type_text = attr_text(&o.node_type);
        match DrawioNodeType::from_str(type_text.as_str()) {
            Ok(node_type) => {
                let tname = attr_text(&o.tname);
                let server = attr_text(&o.server);
                let style = attr_text(&o.style);
                let cid = parse_cid_from_mxfile_rotation(style);
                let key = NodeKey(tname.clone(), server.clone());
                let node = DrawioNode { tname, cid, server, node_type };
                nodes.0.insert(key, node);
            },
            Err(_) => {},
        }
        i = i + 1;
    }
    assert(objects@.take(n as int) =~= objects@);
    proof {
        lemma_nodes_of_objects_keys_match(objects@);
    }
    nodes
}

} // verus!
