//! File-tree data client, decision half: whether a listing or a preview is
//! fetched at all (the local phase has no tree; an unconfigured tunnel port
//! skips), the dirty-frame flag the shell polls, and the preview text made
//! from the server's read answer. The HTTP requests and the tree state are
//! the shell's part.
use vstd::prelude::*;
use crate::json::{Json, JsonV, jget, jstr, json_parse, parse_json};
use crate::brain::{json_get, json_str};
use crate::text::{chars_of, parse_u64, parse_u64_spec, dec, push_dec, push_str};

verus! {

/// The one placeholder row the local phase shows in place of a tree.
pub const LOCAL_PLACEHOLDER_ROW: &'static str = "本地相：文件树不可用（远程相才有）";

/// The viewer text the local phase shows in place of a preview.
pub const LOCAL_MSG: &'static str = "本地相：文件树不可用\n（根在服务器上——远程相才有；切回远程相即见）";

/// The viewer text shown while a preview is on its way.
pub const LOADING_TEXT: &'static str = "加载中…";

/// The client's state: the tunnel's local port (0: not configured) and
/// whether something changed since the shell last looked.
pub struct FetchState {
    pub port: u16,
    pub dirty: bool,
}

impl FetchState {
    pub fn new() -> (s: Self)
        ensures
            s.port == 0,
            !s.dirty,
    {
        FetchState { port: 0, dirty: false }
    }
}

/// Sets the tunnel's local port (fed when the shell loads its settings).
pub fn configure(st: &mut FetchState, local_port: u16)
    ensures
        final(st).port == local_port,
        final(st).dirty == old(st).dirty,
{
    st.port = local_port;
}

/// Records that the tree or the viewer changed.
pub fn note_dirty(st: &mut FetchState)
    ensures
        final(st).dirty,
        final(st).port == old(st).port,
{
    st.dirty = true;
}

/// The shell's per-frame check: true once after each change.
pub fn take_dirty(st: &mut FetchState) -> (r: bool)
    ensures
        r == old(st).dirty,
        !final(st).dirty,
        final(st).port == old(st).port,
{
    let d = st.dirty;
    st.dirty = false;
    d
}

/// What a listing request turns into.
#[derive(Debug, PartialEq, Eq)]
pub enum ListPlan {
    /// Local phase: fill the directory with the placeholder row, no network.
    Placeholder,
    /// No tunnel port configured: nothing happens.
    Skip,
    /// Fetch `/api/fs/list?dir=<dir>` through the tunnel port.
    Fetch { port: u16, dir: String },
}

/// What a preview request turns into.
#[derive(Debug, PartialEq, Eq)]
pub enum ReadPlan {
    /// Local phase: open the viewer on `LOCAL_MSG`.
    LocalNotice,
    /// No tunnel port configured: nothing happens.
    Skip,
    /// Open the viewer on `LOADING_TEXT`, then fetch `/api/fs/read?path=<path>`.
    Fetch { port: u16, path: String },
}

/// Listing a directory's direct children (`dir` empty: the root).
pub fn request_list(st: &FetchState, local: bool, dir: String) -> (p: ListPlan)
    ensures
        local ==> p == ListPlan::Placeholder,
        !local && st.port == 0 ==> p == ListPlan::Skip,
        !local && st.port != 0 ==> (p matches ListPlan::Fetch { port, dir: d } && port == st.port
            && d@ == dir@),
{
    if local {
        ListPlan::Placeholder
    } else if st.port == 0 {
        ListPlan::Skip
    } else {
        ListPlan::Fetch { port: st.port, dir }
    }
}

/// Refreshing the root (page summoned / eye key).
pub fn request_root(st: &FetchState, local: bool) -> (p: ListPlan)
    ensures
        local ==> p == ListPlan::Placeholder,
        !local && st.port == 0 ==> p == ListPlan::Skip,
        !local && st.port != 0 ==> (p matches ListPlan::Fetch { port, dir } && port == st.port
            && dir@.len() == 0),
{
    request_list(st, local, String::new())
}

/// Previewing one file.
pub fn request_read(st: &FetchState, local: bool, path: String) -> (p: ReadPlan)
    ensures
        local ==> p == ReadPlan::LocalNotice,
        !local && st.port == 0 ==> p == ReadPlan::Skip,
        !local && st.port != 0 ==> (p matches ReadPlan::Fetch { port, path: q } && port == st.port
            && q@ == path@),
{
    if local {
        ReadPlan::LocalNotice
    } else if st.port == 0 {
        ReadPlan::Skip
    } else {
        ReadPlan::Fetch { port: st.port, path }
    }
}

/// `Value::as_u64` on an optional member (a number whose text is a u64).
pub open spec fn jnum_u64(j: Option<JsonV>) -> Option<u64> {
    match j {
        Some(JsonV::Number(t)) => parse_u64_spec(t),
        _ => None,
    }
}

/// The member is the boolean `true`.
pub open spec fn jtrue(j: Option<JsonV>) -> bool {
    j == Some(JsonV::Bool(true))
}

/// The viewer text for the server's read answer: binary files are not
/// shown (their size is, 0 when absent); otherwise the text (an empty-file
/// note when absent), with a truncation note when the server cut it.
pub open spec fn preview_spec(v: JsonV) -> Seq<char> {
    if jtrue(jget(v, "binary"@)) {
        let size = match jnum_u64(jget(v, "size"@)) {
            Some(n) => n,
            None => 0,
        };
        "（二进制文件，不预览）\n大小 "@ + dec(size as nat) + " 字节"@
    } else {
        let t = match jstr(jget(v, "text"@)) {
            Some(s) => s,
            None => "（空文件）"@,
        };
        if jtrue(jget(v, "truncated"@)) {
            t + "\n\n…（已截断，仅前 64KB）"@
        } else {
            t
        }
    }
}

fn is_true(j: Option<&Json>) -> (b: bool)
    ensures
        b == jtrue(match j {
            Some(x) => Some(x@),
            None => None,
        }),
{
    match j {
        Some(Json::Bool(true)) => true,
        _ => false,
    }
}

/// Builds the viewer text for a read answer (see `preview_spec`).
pub fn preview_text(v: &Json) -> (s: String)
    ensures
        s@ == preview_spec(v@),
{
    if is_true(json_get(v, "binary")) {
        let size: u64 = match json_get(v, "size") {
            Some(Json::Number(t)) => {
                let cs = chars_of(t.as_str());
                match parse_u64(cs.as_slice()) {
                    Some(n) => n,
                    None => 0,
                }
            },
            _ => 0,
        };
        let mut s = String::from_str("（二进制文件，不预览）\n大小 ");
        push_dec(&mut s, size);
        push_str(&mut s, " 字节");
        s
    } else {
        let mut s = String::new();
        match json_str(json_get(v, "text")) {
            Some(t) => push_str(&mut s, t),
            None => push_str(&mut s, "（空文件）"),
        }
        if is_true(json_get(v, "truncated")) {
            push_str(&mut s, "\n\n…（已截断，仅前 64KB）");
        }
        s
    }
}

/// The viewer text for the body of a read answer: the preview of the parsed
/// answer, or the parse error where the body is not JSON.
pub open spec fn answer_text_spec(body: Seq<char>) -> Seq<char> {
    match json_parse(body) {
        Ok(v) => preview_spec(v),
        Err(e) => "出参不是 JSON："@ + e,
    }
}

/// Parses the read answer and builds the viewer text (see
/// `answer_text_spec`).
pub fn read_answer_text(body: &str) -> (s: String)
    ensures
        s@ == answer_text_spec(body@),
{
    match parse_json(body) {
        Ok(v) => preview_text(&v),
        Err(e) => {
            let mut s = String::from_str("出参不是 JSON：");
            push_str(&mut s, e.as_str());
            s
        },
    }
}

} // verus!
