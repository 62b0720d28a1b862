//! Host terminal queries that panes forward to the terminal zellij runs in.
//!
//! A query is captured as a classified value when the pane's output is
//! intercepted; the bytes that go on the wire are derived from that value.

use vstd::prelude::*;
use crate::encoding::{decimal_u8, push_decimal_u8, push_utf8_char, utf8_of_char};

verus! {

/// The two usual OSC string terminators. An application that phrases a
/// query with one of them expects the reply to mirror it.
#[derive(Debug, Clone, Copy, PartialEq, Eq, Structural)]
pub enum OscTerminator {
    /// `ESC \` (string terminator, xterm style).
    St,
    /// `BEL` (`\x07`).
    Bel,
}

/// The bytes of a terminator.
pub open spec fn terminator_bytes(t: OscTerminator) -> Seq<u8> {
    match t {
        OscTerminator::St => seq![0x1bu8, 0x5cu8],
        OscTerminator::Bel => seq![0x07u8],
    }
}

impl OscTerminator {
    pub fn from_bell_terminated(bell_terminated: bool) -> (t: Self)
        ensures
            t == (if bell_terminated { OscTerminator::Bel } else { OscTerminator::St }),
    {
        if bell_terminated {
            OscTerminator::Bel
        } else {
            OscTerminator::St
        }
    }

    pub fn as_bytes(self) -> (b: Vec<u8>)
        ensures
            b@ == terminator_bytes(self),
    {
        match self {
            OscTerminator::St => vec![0x1bu8, 0x5cu8],
            OscTerminator::Bel => vec![0x07u8],
        }
    }
}

/// The host terminal queries that are let through. Each variant matches one
/// kind of request a pane can make of the terminal.
#[derive(Debug, Clone, Copy, PartialEq, Eq, Structural)]
pub enum HostQuery {
    /// `CSI 14 t`: text area size in pixels.
    TextAreaPixelSize,
    /// `CSI 16 t`: character cell size in pixels.
    CharacterCellPixelSize,
    /// `OSC 10 ; ? <term>`: default foreground color.
    DefaultForeground { terminator: OscTerminator },
    /// `OSC 11 ; ? <term>`: default background color.
    DefaultBackground { terminator: OscTerminator },
    /// `OSC 4 ; N ; ? <term>`: palette register `N`.
    PaletteRegister { index: u8, terminator: OscTerminator },
    /// `OSC 52 ; S ; ? <term>`: clipboard content of selection `S`.
    ClipboardContent { selection: char, terminator: OscTerminator },
    /// `CSI ? 996 n`: the host's palette theme mode. Answered locally from a
    /// cached value and never sent to the host.
    ColorPaletteMode,
}

/// `ESC [`
pub open spec fn csi() -> Seq<u8> {
    seq![0x1bu8, 0x5bu8]
}

/// `ESC ]`
pub open spec fn osc() -> Seq<u8> {
    seq![0x1bu8, 0x5du8]
}

/// The wire form of a query.
pub open spec fn query_bytes(q: HostQuery) -> Seq<u8> {
    match q {
        HostQuery::TextAreaPixelSize => csi() + seq![0x31u8, 0x34u8, 0x74u8],
        HostQuery::CharacterCellPixelSize => csi() + seq![0x31u8, 0x36u8, 0x74u8],
        HostQuery::DefaultForeground { terminator } => osc() + seq![0x31u8, 0x30u8, 0x3bu8, 0x3fu8]
            + terminator_bytes(terminator),
        HostQuery::DefaultBackground { terminator } => osc() + seq![0x31u8, 0x31u8, 0x3bu8, 0x3fu8]
            + terminator_bytes(terminator),
        HostQuery::PaletteRegister { index, terminator } => osc() + seq![0x34u8, 0x3bu8]
            + decimal_u8(index) + seq![0x3bu8, 0x3fu8] + terminator_bytes(terminator),
        HostQuery::ClipboardContent { selection, terminator } => osc() + seq![0x35u8, 0x32u8, 0x3bu8]
            + utf8_of_char(selection) + seq![0x3bu8, 0x3fu8] + terminator_bytes(terminator),
        HostQuery::ColorPaletteMode => Seq::empty(),
    }
}

/// The reply sent back to the pane when the host has nothing to say.
pub open spec fn empty_reply(q: HostQuery) -> Seq<u8> {
    match q {
        HostQuery::ClipboardContent { selection, terminator } => osc() + seq![0x35u8, 0x32u8, 0x3bu8]
            + utf8_of_char(selection) + seq![0x3bu8] + terminator_bytes(terminator),
        _ => Seq::empty(),
    }
}

fn push_terminator(out: &mut Vec<u8>, t: OscTerminator)
    ensures
        final(out)@ == old(out)@ + terminator_bytes(t),
{
    match t {
        OscTerminator::St => {
            out.push(0x1b);
            out.push(0x5c);
        },
        OscTerminator::Bel => {
            out.push(0x07);
        },
    }
}

impl HostQuery {
    /// Serializes this query into the byte sequence the host terminal expects.
    pub fn to_query_bytes(&self) -> (v: Vec<u8>)
        ensures
            v@ == query_bytes(*self),
    {
        match self {
            HostQuery::TextAreaPixelSize => vec![0x1bu8, 0x5bu8, 0x31u8, 0x34u8, 0x74u8],
            HostQuery::CharacterCellPixelSize => vec![0x1bu8, 0x5bu8, 0x31u8, 0x36u8, 0x74u8],
            HostQuery::DefaultForeground { terminator } => {
                let mut v = vec![0x1bu8, 0x5du8, 0x31u8, 0x30u8, 0x3bu8, 0x3fu8];
                push_terminator(&mut v, *terminator);
                v
            },
            HostQuery::DefaultBackground { terminator } => {
                let mut v = vec![0x1bu8, 0x5du8, 0x31u8, 0x31u8, 0x3bu8, 0x3fu8];
                push_terminator(&mut v, *terminator);
                v
            },
            HostQuery::PaletteRegister { index, terminator } => {
                let mut v = vec![0x1bu8, 0x5du8, 0x34u8, 0x3bu8];
                push_decimal_u8(&mut v, *index);
                v.push(0x3b);
                v.push(0x3f);
                push_terminator(&mut v, *terminator);
                v
            },
            HostQuery::ClipboardContent { selection, terminator } => {
                let mut v = vec![0x1bu8, 0x5du8, 0x35u8, 0x32u8, 0x3bu8];
                push_utf8_char(&mut v, *selection);
                v.push(0x3b);
                v.push(0x3f);
                push_terminator(&mut v, *terminator);
                v
            },
            HostQuery::ColorPaletteMode => Vec::new(),
        }
    }

    /// The reply that stands for "no content": only clipboard queries have one.
    pub fn empty_reply_bytes(&self) -> (v: Vec<u8>)
        ensures
            v@ == empty_reply(*self),
    {
        match self {
            HostQuery::ClipboardContent { selection, terminator } => {
                let mut v = vec![0x1bu8, 0x5du8, 0x35u8, 0x32u8, 0x3bu8];
                push_utf8_char(&mut v, *selection);
                v.push(0x3b);
                push_terminator(&mut v, *terminator);
                v
            },
            _ => Vec::new(),
        }
    }
}

/// The terminator a query was phrased with.
pub open spec fn query_terminator(q: HostQuery) -> Option<OscTerminator> {
    match q {
        HostQuery::DefaultForeground { terminator } => Some(terminator),
        HostQuery::DefaultBackground { terminator } => Some(terminator),
        HostQuery::PaletteRegister { terminator, .. } => Some(terminator),
        HostQuery::ClipboardContent { terminator, .. } => Some(terminator),
        _ => None,
    }
}

proof fn lemma_suffix(a: Seq<u8>, t: Seq<u8>)
    ensures
        (a + t).len() >= t.len(),
        (a + t).subrange((a + t).len() - t.len(), (a + t).len() as int) == t,
{
    assert((a + t).subrange((a + t).len() - t.len(), (a + t).len() as int) =~= t);
}

/// An OSC query ends with the terminator it was phrased with, and so does
/// the empty reply to it when it has one: the reply mirrors the query's
/// terminator.
pub proof fn lemma_terminator_is_mirrored(q: HostQuery)
    ensures
        query_terminator(q) matches Some(t) ==> {
            let b = query_bytes(q);
            let tb = terminator_bytes(t);
            &&& b.len() >= tb.len()
            &&& b.subrange(b.len() - tb.len(), b.len() as int) == tb
        },
        query_terminator(q) matches Some(t) ==> (empty_reply(q).len() > 0 ==> {
            let e = empty_reply(q);
            let tb = terminator_bytes(t);
            &&& e.len() >= tb.len()
            &&& e.subrange(e.len() - tb.len(), e.len() as int) == tb
        }),
{
    match q {
        HostQuery::DefaultForeground { terminator } => {
            lemma_suffix(osc() + seq![0x31u8, 0x30u8, 0x3bu8, 0x3fu8], terminator_bytes(terminator));
        },
        HostQuery::DefaultBackground { terminator } => {
            lemma_suffix(osc() + seq![0x31u8, 0x31u8, 0x3bu8, 0x3fu8], terminator_bytes(terminator));
        },
        HostQuery::PaletteRegister { index, terminator } => {
            lemma_suffix(
                osc() + seq![0x34u8, 0x3bu8] + decimal_u8(index) + seq![0x3bu8, 0x3fu8],
                terminator_bytes(terminator),
            );
        },
        HostQuery::ClipboardContent { selection, terminator } => {
            let prefix = osc() + seq![0x35u8, 0x32u8, 0x3bu8] + utf8_of_char(selection);
            lemma_suffix(prefix + seq![0x3bu8, 0x3fu8], terminator_bytes(terminator));
            lemma_suffix(prefix + seq![0x3bu8], terminator_bytes(terminator));
        },
        _ => {},
    }
}

/// The empty reply to a clipboard query has the query's shape without its
/// `?`: the same prefix, then the same terminator.
pub proof fn lemma_empty_reply_is_query_without_question_mark(selection: char, terminator: OscTerminator)
    ensures
        ({
            let q = HostQuery::ClipboardContent { selection, terminator };
            let prefix = osc() + seq![0x35u8, 0x32u8, 0x3bu8] + utf8_of_char(selection) + seq![0x3bu8];
            &&& query_bytes(q) == prefix + seq![0x3fu8] + terminator_bytes(terminator)
            &&& empty_reply(q) == prefix + terminator_bytes(terminator)
        }),
{
    let q = HostQuery::ClipboardContent { selection, terminator };
    let prefix = osc() + seq![0x35u8, 0x32u8, 0x3bu8] + utf8_of_char(selection) + seq![0x3bu8];
    assert(query_bytes(q) =~= prefix + seq![0x3fu8] + terminator_bytes(terminator));
    assert(empty_reply(q) =~= prefix + terminator_bytes(terminator));
}

/// Every query that goes on the wire starts with an escape; the palette
/// mode query, answered locally, has no wire form; only clipboard queries
/// have an empty reply.
pub proof fn lemma_wire_shapes(q: HostQuery)
    ensures
        q != HostQuery::ColorPaletteMode ==> query_bytes(q).len() > 0 && query_bytes(q)[0] == 0x1bu8,
        q == HostQuery::ColorPaletteMode ==> query_bytes(q).len() == 0,
        !(q is ClipboardContent) ==> empty_reply(q).len() == 0,
        q is ClipboardContent ==> empty_reply(q).len() > 0 && empty_reply(q)[0] == 0x1bu8,
{
}

} // verus!
