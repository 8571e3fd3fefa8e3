//! Input-bar injection script (channel eleven): line grammar, script
//! parsing, and the raw frame-buffer byte encoding of the shot channel.
use vstd::prelude::*;
use vstd::bytes::*;
use crate::text::{
    chars_of, sub_vec, split_lines, lines, trim, trim_end, trim_start, trim_end_index,
    trim_start_index, starts_with, string_from_chars, push_str, push_chars, lemma_trail_ws_bound,
    trail_ws, lead_ws, extend_bytes,
};

verus! {

/// One injected input-bar command.
#[derive(Debug, Clone, PartialEq)]
pub enum BarCmd {
    /// Focus (as tapping the text area; raising the keyboard is the shell's job).
    Focus,
    /// Unfocus (as tapping the terminal or Esc).
    Unfocus,
    /// Append text verbatim (spaces and any script kept).
    Text(String),
    /// Delete one whole char backwards.
    Backspace,
    /// Empty the bar.
    Clear,
    /// Send (as the send button: take the text and push it to the sender).
    Submit,
}

pub enum BarCmdV {
    Focus,
    Unfocus,
    Text(Seq<char>),
    Backspace,
    Clear,
    Submit,
}

impl View for BarCmd {
    type V = BarCmdV;

    open spec fn view(&self) -> BarCmdV {
        match self {
            BarCmd::Focus => BarCmdV::Focus,
            BarCmd::Unfocus => BarCmdV::Unfocus,
            BarCmd::Text(t) => BarCmdV::Text(t@),
            BarCmd::Backspace => BarCmdV::Backspace,
            BarCmd::Clear => BarCmdV::Clear,
            BarCmd::Submit => BarCmdV::Submit,
        }
    }
}

/// The line with surrounding white space removed (as `trim_end().trim()`).
pub open spec fn bar_trimmed(line: Seq<char>) -> Seq<char> {
    trim(trim_end(line))
}

pub open spec fn bad_line(t: Seq<char>) -> Seq<char> {
    "坏行(跳过): "@ + t
}

/// Meaning of one script line: `None` for blank and `#` comment lines,
/// `Some(Err(..))` for a bad line (with the line quoted), else the command.
pub open spec fn bar_line_spec(line: Seq<char>) -> Option<Result<BarCmdV, Seq<char>>> {
    let t = bar_trimmed(line);
    if t.len() == 0 || t[0] == '#' {
        None
    } else if t.len() >= 5 && t.take(5) == "text "@ {
        Some(Ok(BarCmdV::Text(t.skip(5))))
    } else if t == "focus"@ {
        Some(Ok(BarCmdV::Focus))
    } else if t == "unfocus"@ {
        Some(Ok(BarCmdV::Unfocus))
    } else if t == "backspace"@ {
        Some(Ok(BarCmdV::Backspace))
    } else if t == "clear"@ {
        Some(Ok(BarCmdV::Clear))
    } else if t == "submit"@ {
        Some(Ok(BarCmdV::Submit))
    } else {
        Some(Err(bad_line(t)))
    }
}

pub open spec fn bar_line_view(r: Option<Result<BarCmd, String>>) -> Option<Result<BarCmdV, Seq<char>>> {
    match r {
        None => None,
        Some(Ok(c)) => Some(Ok(c@)),
        Some(Err(e)) => Some(Err(e@)),
    }
}

fn chars_eq(a: &[char], b: &[char]) -> (r: bool)
    ensures
        r == (a@ == b@),
{
    if a.len() != b.len() {
        return false;
    }
    let mut i: usize = 0;
    while i < a.len()
        invariant
            a.len() == b.len(),
            i <= a.len(),
            forall|j: int| 0 <= j < i ==> a@[j] == b@[j],
        decreases a.len() - i,
    {
        if a[i] != b[i] {
            return false;
        }
        i += 1;
    }
    assert(a@ =~= b@);
    true
}

/// Trims a line as the script grammar does, returning its chars.
fn trimmed_chars(line: &str) -> (t: Vec<char>)
    ensures
        t@ == bar_trimmed(line@),
{
    let cs = chars_of(line);
    let n = cs.len();
    let e1 = trim_end_index(cs.as_slice(), n);
    assert(cs@.take(n as int) =~= cs@);
    let e2 = trim_end_index(cs.as_slice(), e1);
    assert(cs@.take(e2 as int) =~= trim_end(trim_end(line@))) by {
        assert(cs@.take(e1 as int) =~= trim_end(line@));
        assert(cs@.take(e1 as int).take(e2 as int) =~= cs@.take(e2 as int));
    }
    let st = trim_start_index(cs.as_slice(), 0, e2);
    assert(cs@.subrange(0, e2 as int) =~= cs@.take(e2 as int));
    let t = sub_vec(cs.as_slice(), st, e2);
    assert(t@ =~= trim_start(cs@.take(e2 as int)));
    t
}

/// Parses one injection line (pure).
pub fn parse_bar_line(line: &str) -> (r: Option<Result<BarCmd, String>>)
    ensures
        bar_line_view(r) == bar_line_spec(line@),
{
    let t = trimmed_chars(line);
    if t.len() == 0 || t[0] == '#' {
        return None;
    }
    let text_kw = chars_of("text ");
    proof {
        reveal_strlit("text ");
    }
    if starts_with(t.as_slice(), text_kw.as_slice()) {
        let rest = sub_vec(t.as_slice(), 5, t.len());
        assert(rest@ =~= t@.skip(5));
        return Some(Ok(BarCmd::Text(string_from_chars(rest.as_slice()))));
    }
    let focus = chars_of("focus");
    let unfocus = chars_of("unfocus");
    let backspace = chars_of("backspace");
    let clear = chars_of("clear");
    let submit = chars_of("submit");
    if chars_eq(t.as_slice(), focus.as_slice()) {
        Some(Ok(BarCmd::Focus))
    } else if chars_eq(t.as_slice(), unfocus.as_slice()) {
        Some(Ok(BarCmd::Unfocus))
    } else if chars_eq(t.as_slice(), backspace.as_slice()) {
        Some(Ok(BarCmd::Backspace))
    } else if chars_eq(t.as_slice(), clear.as_slice()) {
        Some(Ok(BarCmd::Clear))
    } else if chars_eq(t.as_slice(), submit.as_slice()) {
        Some(Ok(BarCmd::Submit))
    } else {
        let mut e = String::new();
        push_str(&mut e, "坏行(跳过): ");
        push_chars(&mut e, t.as_slice());
        Some(Err(e))
    }
}

/// Commands and bad-line reports of a whole script, in line order.
pub open spec fn bar_script_spec(ls: Seq<Seq<char>>) -> (Seq<BarCmdV>, Seq<Seq<char>>)
    decreases ls.len(),
{
    if ls.len() == 0 {
        (Seq::empty(), Seq::empty())
    } else {
        let prev = bar_script_spec(ls.drop_last());
        match bar_line_spec(ls.last()) {
            Some(Ok(c)) => (prev.0.push(c), prev.1),
            Some(Err(e)) => (prev.0, prev.1.push(e)),
            None => prev,
        }
    }
}

/// Parses a whole script: the valid commands and the bad-line list (blank
/// and comment lines count as neither).
pub fn parse_bar_script(content: &str) -> (r: (Vec<BarCmd>, Vec<String>))
    ensures
        r.0@.map_values(|c: BarCmd| c@) == bar_script_spec(lines(content@)).0,
        r.1@.map_values(|e: String| e@) == bar_script_spec(lines(content@)).1,
{
    let cs = chars_of(content);
    let ls = split_lines(cs.as_slice());
    let ghost lv = ls@.map_values(|w: Vec<char>| w@);
    let mut cmds: Vec<BarCmd> = Vec::new();
    let mut errs: Vec<String> = Vec::new();
    let mut i: usize = 0;
    while i < ls.len()
        invariant
            i <= ls.len(),
            lv == ls@.map_values(|w: Vec<char>| w@),
            lv == lines(content@),
            cmds@.map_values(|c: BarCmd| c@) == bar_script_spec(lv.take(i as int)).0,
            errs@.map_values(|e: String| e@) == bar_script_spec(lv.take(i as int)).1,
        decreases ls.len() - i,
    {
        let line = string_from_chars(ls[i].as_slice());
        assert(lv.take(i + 1).drop_last() =~= lv.take(i as int));
        assert(lv.take(i + 1).last() == line@);
        let ghost c0 = cmds@.map_values(|c: BarCmd| c@);
        let ghost e0 = errs@.map_values(|e: String| e@);
        match parse_bar_line(line.as_str()) {
            Some(Ok(c)) => {
                cmds.push(c);
                assert(cmds@.map_values(|c: BarCmd| c@) =~= c0.push(c@));
            },
            Some(Err(e)) => {
                errs.push(e);
                assert(errs@.map_values(|e: String| e@) =~= e0.push(e@));
            },
            None => {},
        }
        i += 1;
    }
    assert(lv.take(ls.len() as int) =~= lv);
    (cmds, errs)
}

/// Little-endian bytes of XRGB pixels (4 bytes per pixel: B, G, R, X).
pub open spec fn rgb_bytes(buf: Seq<u32>) -> Seq<u8>
    decreases buf.len(),
{
    if buf.len() == 0 {
        Seq::empty()
    } else {
        rgb_bytes(buf.drop_last()) + spec_u32_to_le_bytes(buf.last())
    }
}

/// Frame buffer to raw bytes (the shot channel's `shot.rgb`).
pub fn encode_rgb(buf: &[u32]) -> (out: Vec<u8>)
    ensures
        out@ == rgb_bytes(buf@),
{
    let mut out: Vec<u8> = Vec::new();
    let mut i: usize = 0;
    while i < buf.len()
        invariant
            i <= buf.len(),
            out@ == rgb_bytes(buf@.take(i as int)),
        decreases buf.len() - i,
    {
        let b = u32_to_le_bytes(buf[i]);
        extend_bytes(&mut out, b.as_slice(), 0, 4);
        assert(b@.subrange(0, 4) =~= b@);
        assert(buf@.take(i + 1).drop_last() =~= buf@.take(i as int));
        i += 1;
    }
    assert(buf@.take(buf.len() as int) =~= buf@);
    out
}

} // verus!
