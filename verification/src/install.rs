//! Self-update, file/URI half: the package-name check and the content URI
//! the hand-written file provider accepts (`content://<authority>/apk/<name>`,
//! a single path segment, no `..`).
use vstd::prelude::*;
use crate::text::{
    chars_of, trimmed, trim, last_idx_of, rfind_char, contains_seq, contains_chars, ascii_lower,
    to_ascii_lower, string_from_chars, push_str,
};

verus! {

/// The provider authority (must match the app manifest).
pub const PROVIDER_AUTHORITY: &'static str = "dev.kfm.na.provider";

/// The one directory the provider serves.
pub const INCOMING_DIR: &'static str = "incoming";

/// The package MIME type the installer accepts.
pub const APK_MIME: &'static str = "application/vnd.android.package-archive";

/// The text after the last `/` (all of it when there is none).
pub open spec fn last_segment(p: Seq<char>) -> Seq<char> {
    p.skip(last_idx_of(p, '/') + 1)
}

/// Ends with `.apk`, ASCII case ignored.
pub open spec fn ends_with_apk(n: Seq<char>) -> bool {
    n.len() >= 4 && n.skip(n.len() - 4).map_values(|c: char| ascii_lower(c)) == seq!['.', 'a', 'p', 'k']
}

/// The package name of a path: its last segment, trimmed; refused when
/// empty, holding `..` or a NUL, or not ending in `.apk`.
pub open spec fn apk_name_spec(path: Seq<char>) -> Option<Seq<char>> {
    let name = trim(last_segment(path));
    if name.len() == 0 || contains_seq(name, seq!['.', '.']) || name.contains('\0') || !ends_with_apk(
        name,
    ) {
        None
    } else {
        Some(name)
    }
}

proof fn lemma_last_idx_of(s: Seq<char>, c: char)
    ensures
        -1 <= last_idx_of(s, c) < s.len(),
    decreases s.len(),
{
    if s.len() > 0 && s.last() != c {
        lemma_last_idx_of(s.drop_last(), c);
    }
}

fn has_char(s: &[char], c: char) -> (r: bool)
    ensures
        r == s@.contains(c),
{
    let mut i: usize = 0;
    while i < s.len()
        invariant
            i <= s@.len(),
            forall|k: int| 0 <= k < i ==> s@[k] != c,
        decreases s.len() - i,
    {
        if s[i] == c {
            assert(s@[i as int] == c);
            return true;
        }
        i += 1;
    }
    false
}

/// Takes the package name out of a path (see `apk_name_spec`), with the
/// same rules the provider applies, so a bad name never reaches it.
pub fn apk_name(path: &str) -> (r: Option<String>)
    ensures
        match r {
            Some(n) => apk_name_spec(path@) == Some(n@),
            None => apk_name_spec(path@) is None,
        },
{
    let cs = chars_of(path);
    proof {
        lemma_last_idx_of(cs@, '/');
    }
    let from: usize = match rfind_char(cs.as_slice(), '/') {
        Some(i) => i + 1,
        None => 0,
    };
    let name = trimmed(cs.as_slice(), from, cs.len());
    assert(cs@.subrange(from as int, cs@.len() as int) =~= last_segment(path@));
    if name.len() == 0 {
        return None;
    }
    if contains_chars(name.as_slice(), &['.', '.']) {
        return None;
    }
    if has_char(name.as_slice(), '\0') {
        return None;
    }
    assert(!name@.contains('\0'));
    if name.len() < 4 {
        return None;
    }
    let n = name.len();
    let a = to_ascii_lower(name[n - 4]);
    let b = to_ascii_lower(name[n - 3]);
    let c = to_ascii_lower(name[n - 2]);
    let d = to_ascii_lower(name[n - 1]);
    let ghost suf = name@.skip(n - 4).map_values(|c: char| ascii_lower(c));
    assert(suf[0] == a && suf[1] == b && suf[2] == c && suf[3] == d);
    if !(a == '.' && b == 'a' && c == 'p' && d == 'k') {
        assert(suf != seq!['.', 'a', 'p', 'k']) by {
            if suf == seq!['.', 'a', 'p', 'k'] {
                assert(suf[0] == '.' && suf[1] == 'a' && suf[2] == 'p' && suf[3] == 'k');
            }
        }
        return None;
    }
    assert(suf =~= seq!['.', 'a', 'p', 'k']);
    Some(string_from_chars(name.as_slice()))
}

/// The content URI of a package name: `content://` + authority + `/apk/` +
/// name.
pub open spec fn apk_uri_spec(name: Seq<char>) -> Seq<char> {
    "content://"@ + PROVIDER_AUTHORITY@ + "/apk/"@ + name
}

pub fn apk_uri(name: &str) -> (u: String)
    ensures
        u@ == apk_uri_spec(name@),
{
    let mut u = "content://".to_owned();
    push_str(&mut u, PROVIDER_AUTHORITY);
    push_str(&mut u, "/apk/");
    push_str(&mut u, name);
    u
}

/// A staged package: where it landed (the copy the provider reads), the
/// URI to hand over, and its size.
#[derive(Debug, Clone, PartialEq, Eq)]
pub struct Staged {
    pub path: String,
    pub uri: String,
    pub bytes: u64,
}

} // verus!
