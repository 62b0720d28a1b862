//! Pane identifiers.

use vstd::prelude::*;
use crate::encoding::push_decimal_u32;

verus! {

#[derive(PartialEq, Eq, Ord, PartialOrd, Hash, Clone, Copy, Debug, Structural)]
pub enum PaneId {
    Terminal(u32),
    Plugin(u32),
}

/// The text form of a pane id: `terminal_<id>` or `plugin_<id>`.
pub open spec fn pane_id_text(p: PaneId) -> Seq<char> {
    match p {
        PaneId::Terminal(id) => "terminal_"@ + crate::encoding::decimal_chars(id as nat),
        PaneId::Plugin(id) => "plugin_"@ + crate::encoding::decimal_chars(id as nat),
    }
}

impl PaneId {
    /// The text form of the id, as it is displayed.
    pub fn to_text(&self) -> (s: String)
        ensures
            s@ == pane_id_text(*self),
    {
        let mut s = String::new();
        match self {
            PaneId::Terminal(id) => {
                s.append("terminal_");
                push_decimal_u32(&mut s, *id);
            },
            PaneId::Plugin(id) => {
                s.append("plugin_");
                push_decimal_u32(&mut s, *id);
            },
        }
        s
    }
}

} // verus!
