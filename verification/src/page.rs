//! The texts that the diagram page builds to find its elements and to reach
//! the server, and how it reads the server's text messages.

use vstd::prelude::*;

use crate::text::str_eq;

verus! {

/// The address of the server's web socket on `hostname`.
pub open spec fn websocket_url_seq(hostname: Seq<char>) -> Seq<char> {
    "ws://"@ + hostname + ":8081"@
}

/// The address of the server's web socket on `hostname`:
/// `ws://{hostname}:8081`.
pub fn websocket_url(hostname: &str) -> (res: String)
    ensures
        res@ == websocket_url_seq(hostname@),
{
    let mut res = "ws://".to_owned();
    res.append(hostname);
    res.append(":8081");
    res
}

/// The server's text message that asks the page to restart.
pub open spec fn termination_notice() -> Seq<char> {
    "Terminated"@
}

/// Whether a text message from the server asks the page to restart; any
/// other text message is a list of containers.
pub fn is_termination_notice(text: &str) -> (res: bool)
    ensures
        res == (text@ == termination_notice()),
{
    str_eq(text, "Terminated")
}

/// The selector of the label of the rectangle at (`x`, `y`).
pub open spec fn rect_label_selector_seq(x: Seq<char>, y: Seq<char>) -> Seq<char> {
    "[x='"@ + x + "'][y='"@ + y + "'] + g > switch > foreignObject > div > div > div"@
}

/// The selector of the label of the rectangle at (`x`, `y`):
/// `[x='{x}'][y='{y}'] + g > switch > foreignObject > div > div > div`.
pub fn rect_label_selector(x: &str, y: &str) -> (res: String)
    ensures
        res@ == rect_label_selector_seq(x@, y@),
{
    let mut res = "[x='".to_owned();
    res.append(x);
    res.append("'][y='");
    res.append(y);
    res.append("'] + g > switch > foreignObject > div > div > div");
    res
}

/// The selector of the rendered node that follows the rectangle at
/// (`x`, `y`); none for the position (`0`, `0`), where the tooltip rests
/// when no rectangle is under the pointer.
pub open spec fn click_target_selector_seq(x: Seq<char>, y: Seq<char>) -> Option<Seq<char>> {
    if x == "0"@ && y == "0"@ {
        None
    } else {
        Some("[x='"@ + x + "'][y='"@ + y + "'] + g"@)
    }
}

/// Only the rest position (`0`, `0`) gives no selector; any other position,
/// `0` on one axis included, gives the selector of the rendered node that
/// follows the rectangle at exactly that position.
pub proof fn lemma_click_target_only_rest_is_none(x: Seq<char>, y: Seq<char>)
    ensures
        click_target_selector_seq(x, y) is None <==> (x == "0"@ && y == "0"@),
        !(x == "0"@ && y == "0"@) ==> click_target_selector_seq(x, y) == Some(
            "[x='"@ + x + "'][y='"@ + y + "'] + g"@,
        ),
{
}

/// The selector of the rendered node that a click at the tooltip's position
/// (`x`, `y`) describes: `[x='{x}'][y='{y}'] + g`, or none when the tooltip
/// rests at (`0`, `0`).
pub fn click_target_selector(x: &str, y: &str) -> (res: Option<String>)
    ensures
        res matches Some(s) ==> click_target_selector_seq(x@, y@) == Some(s@),
        res is None ==> click_target_selector_seq(x@, y@) is None,
        res is None <==> (x@ == "0"@ && y@ == "0"@),
        res matches Some(sel) ==> sel@ == "[x='"@ + x@ + "'][y='"@ + y@ + "'] + g"@,
{
    proof {
        lemma_click_target_only_rest_is_none(x@, y@);
    }
    if str_eq(x, "0") && str_eq(y, "0") {
        return None;
    }
    let mut res = "[x='".to_owned();
    res.append(x);
    res.append("'][y='");
    res.append(y);
    res.append("'] + g");
    Some(res)
}

} // verus!
