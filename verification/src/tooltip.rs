//! The tooltip that describes a clicked container: it shows while it has
//! text and hides when its text is emptied.

use vstd::prelude::*;

verus! {

/// What the tooltip is told to do.
#[derive(Debug, Clone, Copy, PartialEq, Eq, Structural)]
pub enum Msg {
    Show,
    Hide,
}

/// The tooltip's position and text.
#[derive(Debug, PartialEq)]
pub struct Props {
    pub x: String,
    pub y: String,
    pub text: String,
}

impl Props {
    /// What the tooltip is told when its properties change from `old` to
    /// `self`: nothing (and no new rendering) when the text is the same;
    /// else `Show` for a non-empty text and `Hide` for an empty one.
    pub fn change_message(&self, old: &Props) -> (res: Option<Msg>)
        ensures
            res is None <==> self.text@ == old.text@,
            res == Some(Msg::Show) <==> (self.text@ != old.text@ && self.text@.len() > 0),
            res == Some(Msg::Hide) <==> (self.text@ != old.text@ && self.text@.len() == 0),
    {
        if self.text == old.text {
            None
        } else if self.text.as_str().unicode_len() > 0 {
            Some(Msg::Show)
        } else {
            Some(Msg::Hide)
        }
    }
}

/// The CSS class that the tooltip takes on `msg`.
pub open spec fn class_of(msg: Msg) -> Seq<char> {
    match msg {
        Msg::Show => "visible"@,
        Msg::Hide => "hidden"@,
    }
}

/// The CSS class that the tooltip takes on `msg`: `visible` or `hidden`.
pub fn class_name(msg: Msg) -> (res: &'static str)
    ensures
        res@ == class_of(msg),
{
    match msg {
        Msg::Show => "visible",
        Msg::Hide => "hidden",
    }
}

} // verus!
