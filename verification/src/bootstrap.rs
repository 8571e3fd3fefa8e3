//! First-start installation of the Linux environment: the archive is read
//! here (through the zip crate) and turned into an ordered plan of steps —
//! directories, files with their permission bits, the manifest's links, and
//! the failure that stops the installation. Carrying the steps out on the
//! file system is the shell's part.
use vstd::prelude::*;
use vstd::utf8::*;
use std::io::{Cursor, Read};
use zip::ZipArchive;
use crate::text::{chars_of, split_lines, lines, idx_of, find_char, sub_vec, string_from_chars, push_chars, push_str, push_dec, dec, str_eq};

verus! {

/// What the first-start installer did.
#[derive(Debug, Clone, Copy, PartialEq, Eq, Structural)]
pub enum InstallStatus {
    /// The prefix was empty and has been installed.
    Installed,
    /// The prefix already held an environment; nothing was touched.
    AlreadyPresent,
}

/// The path components of an entry name.
pub open spec fn comps_view(c: Seq<String>) -> Seq<Seq<char>> {
    c.map_values(|s: String| s@)
}

/// Entries under `bin/`, `libexec`, `lib/apt/apt-helper` or
/// `lib/apt/methods` (whole components, as `Path::starts_with` compares).
pub open spec fn is_exec_entry(c: Seq<Seq<char>>) -> bool {
    ||| c.len() >= 1 && c[0] == "bin"@
    ||| c.len() >= 1 && c[0] == "libexec"@
    ||| c.len() >= 3 && c[0] == "lib"@ && c[1] == "apt"@ && c[2] == "apt-helper"@
    ||| c.len() >= 3 && c[0] == "lib"@ && c[1] == "apt"@ && c[2] == "methods"@
}

/// The permission bits a file entry is given: 0700 for the executable
/// trees, 0644 otherwise.
pub open spec fn entry_mode_spec(c: Seq<Seq<char>>) -> u32 {
    if is_exec_entry(c) {
        0o700
    } else {
        0o644
    }
}

/// Permission bits for a file entry, from its path components.
pub fn entry_mode(comps: &[String]) -> (m: u32)
    ensures
        m == entry_mode_spec(comps_view(comps@)),
{
    let ghost c = comps_view(comps@);
    let n = comps.len();
    let exec = if n >= 1 && (str_eq(comps[0].as_str(), "bin") || str_eq(comps[0].as_str(), "libexec")) {
        true
    } else if n >= 3 && str_eq(comps[0].as_str(), "lib") && str_eq(comps[1].as_str(), "apt") && (str_eq(
        comps[2].as_str(),
        "apt-helper",
    ) || str_eq(comps[2].as_str(), "methods")) {
        true
    } else {
        false
    };
    assert(n >= 1 ==> c[0] == comps@[0]@);
    assert(n >= 3 ==> c[1] == comps@[1]@ && c[2] == comps@[2]@);
    if exec {
        0o700
    } else {
        0o644
    }
}

/// The link manifest is the top-level entry `SYMLINKS.txt`.
pub open spec fn is_link_manifest_spec(c: Seq<Seq<char>>) -> bool {
    c.len() == 1 && c[0] == "SYMLINKS.txt"@
}

/// Whether an entry (by its path components) is the link manifest.
pub fn is_link_manifest(comps: &[String]) -> (b: bool)
    ensures
        b == is_link_manifest_spec(comps_view(comps@)),
{
    let ghost c = comps_view(comps@);
    if comps.len() == 1 {
        assert(c[0] == comps@[0]@);
        str_eq(comps[0].as_str(), "SYMLINKS.txt")
    } else {
        false
    }
}

/// One manifest line `target←linkpath` (split at the first U+2190); a line
/// without the arrow is refused with its text.
pub open spec fn link_line(line: Seq<char>) -> Result<(Seq<char>, Seq<char>), Seq<char>> {
    let i = idx_of(line, '\u{2190}');
    if i < line.len() {
        Ok((line.take(i as int), line.skip(i as int + 1)))
    } else {
        Err("SYMLINKS.txt 行畸形: "@ + line)
    }
}

pub open spec fn link_view(r: Result<(String, String), String>) -> Result<(Seq<char>, Seq<char>), Seq<char>> {
    match r {
        Ok((t, l)) => Ok((t@, l@)),
        Err(e) => Err(e@),
    }
}

fn read_link_line(line: &[char]) -> (r: Result<(String, String), String>)
    ensures
        link_view(r) == link_line(line@),
{
    let i = find_char(line, 0, '\u{2190}');
    assert(line@.skip(0) =~= line@);
    if i < line.len() {
        let t = sub_vec(line, 0, i);
        let l = sub_vec(line, i + 1, line.len());
        assert(t@ =~= line@.take(i as int));
        assert(l@ =~= line@.skip(i as int + 1));
        Ok((string_from_chars(t.as_slice()), string_from_chars(l.as_slice())))
    } else {
        let mut e = String::from_str("SYMLINKS.txt 行畸形: ");
        push_chars(&mut e, line);
        Err(e)
    }
}

/// Reads the link manifest line by line (see `link_line`); the links are
/// made in this order and the first refused line stops the installation.
pub fn link_plan(text: &str) -> (v: Vec<Result<(String, String), String>>)
    ensures
        v@.len() == lines(text@).len(),
        forall|k: int| 0 <= k < v@.len() ==> #[trigger] link_view(v@[k]) == link_line(lines(text@)[k]),
{
    let cs = chars_of(text);
    let ls = split_lines(cs.as_slice());
    let ghost lv = ls@.map_values(|w: Vec<char>| w@);
    let mut v: Vec<Result<(String, String), String>> = Vec::new();
    let mut i: usize = 0;
    while i < ls.len()
        invariant
            i <= ls@.len(),
            lv == ls@.map_values(|w: Vec<char>| w@),
            lv == lines(text@),
            v@.len() == i,
            forall|k: int| 0 <= k < i ==> #[trigger] link_view(v@[k]) == link_line(lv[k]),
        decreases ls.len() - i,
    {
        let r = read_link_line(ls[i].as_slice());
        assert(lv[i as int] == ls@[i as int]@);
        v.push(r);
        i += 1;
    }
    v
}

/// One entry of the archive as the installer reads it: the path components
/// of its enclosed name (`None` where the name would escape the target or
/// holds a NUL), the name as `{:?}` renders it, whether it is a directory,
/// and its bytes or the read error's text.
#[derive(Debug)]
pub struct ZipEntry {
    pub comps: Option<Vec<String>>,
    pub shown: String,
    pub is_dir: bool,
    pub data: Result<Vec<u8>, String>,
}

/// An archive entry, mathematically.
pub struct ZipEntryV {
    pub comps: Option<Seq<Seq<char>>>,
    pub shown: Seq<char>,
    pub is_dir: bool,
    pub data: Result<Seq<u8>, Seq<char>>,
}

impl View for ZipEntry {
    type V = ZipEntryV;

    open spec fn view(&self) -> ZipEntryV {
        ZipEntryV {
            comps: match self.comps {
                Some(c) => Some(comps_view(c@)),
                None => None,
            },
            shown: self.shown@,
            is_dir: self.is_dir,
            data: match self.data {
                Ok(d) => Ok(d@),
                Err(e) => Err(e@),
            },
        }
    }
}

/// An entry, or the text of the error that opening it gave.
pub open spec fn entry_result_view(r: Result<ZipEntry, String>) -> Result<ZipEntryV, Seq<char>> {
    match r {
        Ok(e) => Ok(e@),
        Err(m) => Err(m@),
    }
}

pub open spec fn entries_view(es: Seq<Result<ZipEntry, String>>) -> Seq<Result<ZipEntryV, Seq<char>>> {
    es.map_values(|r: Result<ZipEntry, String>| entry_result_view(r))
}

pub open spec fn archive_view(r: Result<Vec<Result<ZipEntry, String>>, String>) -> Result<Seq<Result<ZipEntryV, Seq<char>>>, Seq<char>> {
    match r {
        Ok(v) => Ok(entries_view(v@)),
        Err(e) => Err(e@),
    }
}

/// What the zip crate reads from an archive's bytes: the error text of an
/// archive it cannot open, or each entry in index order.
pub uninterp spec fn zip_read(bytes: Seq<u8>) -> Result<Seq<Result<ZipEntryV, Seq<char>>>, Seq<char>>;

/// Opens the archive with `zip::ZipArchive::new` and, for each index,
/// `by_index`, `enclosed_name`, `is_dir` and `read_to_end`; the enclosed
/// name is converted to its components (`Path::iter`) and its `{:?}` text,
/// errors to their `Display` text. Claims only that the outcome is
/// `zip_read` of the bytes: the crate's reading depends on the bytes alone.
/// Nothing is claimed of how the crate reads a given archive.
#[verifier::external_body]
fn zip_entries(bytes: &[u8]) -> (r: Result<Vec<Result<ZipEntry, String>>, String>)
    ensures
        archive_view(r) == zip_read(bytes@),
{
    let mut a = ZipArchive::new(Cursor::new(bytes)).map_err(|e| e.to_string())?;
    Ok((0..a.len()).map(|i| a.by_index(i).map_err(|e| e.to_string()).map(|mut f| {
        let name = f.enclosed_name();
        let mut d = vec![];
        ZipEntry {
            comps: name.as_ref().map(|p| p.iter().map(|c| c.to_string_lossy().into()).collect()),
            shown: format!("{:?}", name.unwrap_or_default()),
            is_dir: f.is_dir(),
            data: f.read_to_end(&mut d).and(Ok(d)).map_err(|e| e.to_string()),
        }
    })).collect())
}

/// The text of the error that reading invalid UTF-8 as a string gives.
pub uninterp spec fn utf8_read_error(bytes: Seq<u8>) -> Seq<char>;

/// `std::io::Read::read_to_string` on a byte slice: valid UTF-8 is read
/// back as its characters; otherwise an error is returned, whose text is
/// named. The string is sized for the bytes first, so the read reserves
/// nothing and fails on invalid UTF-8 only.
#[verifier::external_body]
fn read_text(bytes: &[u8]) -> (r: Result<String, String>)
    ensures
        r is Ok <==> valid_utf8(bytes@),
        r matches Ok(s) ==> s@ == decode_utf8(bytes@),
        r matches Err(m) ==> m@ == utf8_read_error(bytes@),
{
    let mut s = String::with_capacity(bytes.len());
    (&mut &*bytes).read_to_string(&mut s).map(|_| s).map_err(|e| e.to_string())
}

/// One step of the installation, carried out in order by the shell.
#[derive(Debug, PartialEq, Eq)]
pub enum InstallStep {
    /// Make the directory (and its parents).
    Dir { comps: Vec<String>, shown: String },
    /// Make the parent directories and the file, write its bytes and set its
    /// permission bits; where the entry's bytes could not be read, `data`
    /// holds the message that stops the installation once the file is made.
    File { comps: Vec<String>, shown: String, data: Result<Vec<u8>, String>, mode: u32 },
    /// Make the symbolic link `link` (relative to the target) pointing at
    /// `target`.
    Link { target: String, link: String },
    /// Stop with this message.
    Fail { message: String },
}

/// A step, mathematically.
pub enum StepV {
    Dir { comps: Seq<Seq<char>>, shown: Seq<char> },
    File { comps: Seq<Seq<char>>, shown: Seq<char>, data: Result<Seq<u8>, Seq<char>>, mode: u32 },
    Link { target: Seq<char>, link: Seq<char> },
    Fail { message: Seq<char> },
}

impl View for InstallStep {
    type V = StepV;

    open spec fn view(&self) -> StepV {
        match self {
            InstallStep::Dir { comps, shown } => StepV::Dir { comps: comps_view(comps@), shown: shown@ },
            InstallStep::File { comps, shown, data, mode } => StepV::File {
                comps: comps_view(comps@),
                shown: shown@,
                data: match data {
                    Ok(d) => Ok(d@),
                    Err(e) => Err(e@),
                },
                mode: *mode,
            },
            InstallStep::Link { target, link } => StepV::Link { target: target@, link: link@ },
            InstallStep::Fail { message } => StepV::Fail { message: message@ },
        }
    }
}

pub open spec fn steps_view(v: Seq<InstallStep>) -> Seq<StepV> {
    v.map_values(|s: InstallStep| s@)
}

/// An entry that could not be opened.
pub open spec fn entry_fail(i: nat, e: Seq<char>) -> Seq<char> {
    "读 zip 条目 #"@ + dec(i) + " 失败: "@ + e
}

/// The link manifest could not be read as text.
pub open spec fn manifest_fail(e: Seq<char>) -> Seq<char> {
    "读 SYMLINKS.txt 失败: "@ + e
}

/// A file entry's bytes could not be read.
pub open spec fn write_fail(shown: Seq<char>, e: Seq<char>) -> Seq<char> {
    "写文件 "@ + shown + " 失败: "@ + e
}

/// The links of the manifest's lines in order, stopping at the first line
/// that is refused.
pub open spec fn link_steps(ls: Seq<Seq<char>>) -> Seq<StepV>
    decreases ls.len(),
{
    if ls.len() == 0 {
        Seq::empty()
    } else {
        match link_line(ls[0]) {
            Ok((t, l)) => seq![StepV::Link { target: t, link: l }] + link_steps(ls.drop_first()),
            Err(m) => seq![StepV::Fail { message: m }],
        }
    }
}

/// The steps for the entries from index `i` on, with the manifest text
/// read so far: entries without an enclosed name are skipped; the manifest
/// is remembered (a later one replaces an earlier one); directories and
/// files become steps in entry order; once every entry is done the
/// manifest's links follow, or the installation fails without one. The
/// first failure ends the plan.
pub open spec fn entry_steps(es: Seq<Result<ZipEntryV, Seq<char>>>, i: nat, manifest: Option<Seq<char>>) -> Seq<StepV>
    decreases es.len() - i,
{
    if i >= es.len() {
        match manifest {
            None => seq![StepV::Fail { message: "zip 里没有 SYMLINKS.txt——不是合法 bootstrap"@ }],
            Some(t) => link_steps(lines(t)),
        }
    } else {
        match es[i as int] {
            Err(e) => seq![StepV::Fail { message: entry_fail(i, e) }],
            Ok(en) => match en.comps {
                None => entry_steps(es, i + 1, manifest),
                Some(c) => if is_link_manifest_spec(c) {
                    match en.data {
                        Err(m) => seq![StepV::Fail { message: manifest_fail(m) }],
                        Ok(d) => if valid_utf8(d) {
                            entry_steps(es, i + 1, Some(decode_utf8(d)))
                        } else {
                            seq![StepV::Fail { message: manifest_fail(utf8_read_error(d)) }]
                        },
                    }
                } else if en.is_dir {
                    seq![StepV::Dir { comps: c, shown: en.shown }] + entry_steps(es, i + 1, manifest)
                } else {
                    match en.data {
                        Ok(d) => seq![StepV::File { comps: c, shown: en.shown, data: Ok(d), mode: entry_mode_spec(c) }]
                            + entry_steps(es, i + 1, manifest),
                        Err(m) => seq![StepV::File {
                            comps: c,
                            shown: en.shown,
                            data: Err(write_fail(en.shown, m)),
                            mode: entry_mode_spec(c),
                        }],
                    }
                }
            },
        }
    }
}

/// A step that ends the installation: a failure, or a file whose bytes
/// could not be read.
pub open spec fn stops(s: StepV) -> bool {
    match s {
        StepV::Fail { .. } => true,
        StepV::File { data, .. } => data is Err,
        _ => false,
    }
}

/// Only the last step of a plan can end the installation.
pub open spec fn stops_last(v: Seq<StepV>) -> bool {
    forall|k: int| 0 <= k < v.len() - 1 ==> !stops(#[trigger] v[k])
}

proof fn lemma_cons_stops_last(x: StepV, rest: Seq<StepV>)
    requires
        !stops(x),
        stops_last(rest),
    ensures
        stops_last(seq![x] + rest),
{
    let v = seq![x] + rest;
    assert forall|k: int| 0 <= k < v.len() - 1 implies !stops(#[trigger] v[k]) by {
        if k > 0 {
            assert(v[k] == rest[k - 1]);
        }
    }
}

proof fn lemma_link_steps_stop_last(ls: Seq<Seq<char>>)
    ensures
        stops_last(link_steps(ls)),
    decreases ls.len(),
{
    if ls.len() > 0 {
        match link_line(ls[0]) {
            Ok((t, l)) => {
                lemma_link_steps_stop_last(ls.drop_first());
                lemma_cons_stops_last(StepV::Link { target: t, link: l }, link_steps(ls.drop_first()));
            },
            Err(_) => {},
        }
    }
}

/// The first failure ends the plan: in the steps for any entries, only the
/// last step can be a failure or a file whose bytes could not be read, so
/// carrying the steps out in order and stopping at such a step does all
/// the plan asks.
pub proof fn lemma_plan_stops_last(es: Seq<Result<ZipEntryV, Seq<char>>>, i: nat, manifest: Option<Seq<char>>)
    ensures
        stops_last(entry_steps(es, i, manifest)),
    decreases es.len() - i,
{
    if i >= es.len() {
        match manifest {
            None => {},
            Some(t) => lemma_link_steps_stop_last(lines(t)),
        }
    } else {
        match es[i as int] {
            Err(_) => {},
            Ok(en) => match en.comps {
                None => lemma_plan_stops_last(es, i + 1, manifest),
                Some(c) => if is_link_manifest_spec(c) {
                    match en.data {
                        Err(_) => {},
                        Ok(d) => if valid_utf8(d) {
                            lemma_plan_stops_last(es, i + 1, Some(decode_utf8(d)));
                        },
                    }
                } else if en.is_dir {
                    lemma_plan_stops_last(es, i + 1, manifest);
                    lemma_cons_stops_last(StepV::Dir { comps: c, shown: en.shown }, entry_steps(es, i + 1, manifest));
                } else {
                    match en.data {
                        Ok(d) => {
                            lemma_plan_stops_last(es, i + 1, manifest);
                            lemma_cons_stops_last(
                                StepV::File { comps: c, shown: en.shown, data: Ok(d), mode: entry_mode_spec(c) },
                                entry_steps(es, i + 1, manifest),
                            );
                        },
                        Err(_) => {},
                    }
                },
            },
        }
    }
}

/// The whole plan for an archive's bytes.
pub open spec fn bootstrap_plan_spec(bytes: Seq<u8>) -> Seq<StepV> {
    match zip_read(bytes) {
        Err(e) => seq![StepV::Fail { message: "bootstrap zip 打不开: "@ + e }],
        Ok(es) => entry_steps(es, 0, None),
    }
}

/// The same for the whole plan of an archive's bytes.
pub proof fn lemma_bootstrap_plan_stops_last(bytes: Seq<u8>)
    ensures
        stops_last(bootstrap_plan_spec(bytes)),
{
    match zip_read(bytes) {
        Err(_) => {},
        Ok(es) => lemma_plan_stops_last(es, 0, None),
    }
}

fn copy_comps(c: &Vec<String>) -> (r: Vec<String>)
    ensures
        comps_view(r@) == comps_view(c@),
{
    let mut r: Vec<String> = Vec::new();
    let mut k: usize = 0;
    while k < c.len()
        invariant
            k <= c.len(),
            r@.len() == k,
            forall|j: int| 0 <= j < k ==> #[trigger] r@[j]@ == c@[j]@,
        decreases c.len() - k,
    {
        r.push(c[k].clone());
        k += 1;
    }
    assert(comps_view(r@) =~= comps_view(c@));
    r
}

pub open spec fn text_view(m: Option<String>) -> Option<Seq<char>> {
    match m {
        Some(t) => Some(t@),
        None => None,
    }
}

proof fn lemma_append_one(a: Seq<StepV>, x: StepV, b: Seq<StepV>)
    ensures
        a.push(x) + b == a + (seq![x] + b),
{
    assert(a.push(x) + b =~= a + (seq![x] + b));
}

/// The steps of the manifest's links (see `link_steps`).
fn link_steps_of(text: &str) -> (out: Vec<InstallStep>)
    ensures
        steps_view(out@) == link_steps(lines(text@)),
{
    let plan = link_plan(text);
    let ghost ls = lines(text@);
    let mut out: Vec<InstallStep> = Vec::new();
    let mut k: usize = 0;
    assert(ls.skip(0) =~= ls);
    assert(steps_view(out@) + link_steps(ls) =~= link_steps(ls));
    while k < plan.len()
        invariant
            k <= plan@.len(),
            plan@.len() == ls.len(),
            ls == lines(text@),
            forall|j: int| 0 <= j < plan@.len() ==> #[trigger] link_view(plan@[j]) == link_line(ls[j]),
            steps_view(out@) + link_steps(ls.skip(k as int)) == link_steps(ls),
        decreases plan.len() - k,
    {
        let ghost before = steps_view(out@);
        let ghost rest = ls.skip(k as int);
        assert(rest[0] == ls[k as int]);
        assert(rest.drop_first() =~= ls.skip(k + 1));
        assert(link_view(plan@[k as int]) == link_line(ls[k as int]));
        match &plan[k] {
            Ok((t, l)) => {
                out.push(InstallStep::Link { target: t.clone(), link: l.clone() });
                proof {
                    assert(steps_view(out@) =~= before.push(StepV::Link { target: t@, link: l@ }));
                    lemma_append_one(before, StepV::Link { target: t@, link: l@ }, link_steps(ls.skip(k + 1)));
                }
            },
            Err(m) => {
                out.push(InstallStep::Fail { message: m.clone() });
                proof {
                    assert(rest.len() > 0);
                    assert(link_steps(rest) == seq![StepV::Fail { message: m@ }]);
                    assert(steps_view(out@) =~= before + seq![StepV::Fail { message: m@ }]);
                }
                return out;
            },
        }
        k += 1;
    }
    assert(ls.skip(k as int) =~= Seq::<Seq<char>>::empty());
    assert(steps_view(out@) + Seq::<StepV>::empty() =~= steps_view(out@));
    out
}

/// The installation plan for the archive's entries (see `entry_steps`).
pub fn install_plan(entries: &[Result<ZipEntry, String>]) -> (v: Vec<InstallStep>)
    ensures
        steps_view(v@) == entry_steps(entries_view(entries@), 0, None),
{
    let ghost es = entries_view(entries@);
    let mut out: Vec<InstallStep> = Vec::new();
    let mut manifest: Option<String> = None;
    let mut i: usize = 0;
    while i < entries.len()
        invariant
            i <= entries@.len(),
            es == entries_view(entries@),
            steps_view(out@) + entry_steps(es, i as nat, text_view(manifest)) == entry_steps(es, 0, None),
        decreases entries.len() - i,
    {
        let ghost before = steps_view(out@);
        assert(es[i as int] == entry_result_view(entries@[i as int]));
        match &entries[i] {
            Err(e) => {
                let mut m = String::from_str("读 zip 条目 #");
                push_dec(&mut m, i as u64);
                push_str(&mut m, " 失败: ");
                push_str(&mut m, e.as_str());
                out.push(InstallStep::Fail { message: m });
                assert(steps_view(out@) =~= before + entry_steps(es, i as nat, text_view(manifest)));
                return out;
            },
            Ok(en) => {
                match &en.comps {
                    None => {},
                    Some(c) => {
                        if is_link_manifest(c.as_slice()) {
                            match &en.data {
                                Err(e) => {
                                    let mut m = String::from_str("读 SYMLINKS.txt 失败: ");
                                    push_str(&mut m, e.as_str());
                                    out.push(InstallStep::Fail { message: m });
                                    assert(steps_view(out@) =~= before + entry_steps(es, i as nat, text_view(manifest)));
                                    return out;
                                },
                                Ok(d) => {
                                    match read_text(d.as_slice()) {
                                        Ok(t) => {
                                            manifest = Some(t);
                                        },
                                        Err(e) => {
                                            let mut m = String::from_str("读 SYMLINKS.txt 失败: ");
                                            push_str(&mut m, e.as_str());
                                            out.push(InstallStep::Fail { message: m });
                                            assert(steps_view(out@) =~= before + entry_steps(es, i as nat, text_view(manifest)));
                                            return out;
                                        },
                                    }
                                },
                            }
                        } else if en.is_dir {
                            out.push(InstallStep::Dir { comps: copy_comps(c), shown: en.shown.clone() });
                            proof {
                                let x = StepV::Dir { comps: comps_view(c@), shown: en.shown@ };
                                assert(steps_view(out@) =~= before.push(x));
                                lemma_append_one(before, x, entry_steps(es, (i + 1) as nat, text_view(manifest)));
                            }
                        } else {
                            let mode = entry_mode(c.as_slice());
                            match &en.data {
                                Ok(d) => {
                                    let bytes = sub_vec(d.as_slice(), 0, d.len());
                                    assert(bytes@ =~= d@);
                                    out.push(InstallStep::File { comps: copy_comps(c), shown: en.shown.clone(), data: Ok(bytes), mode });
                                    proof {
                                        let x = StepV::File { comps: comps_view(c@), shown: en.shown@, data: Ok(d@), mode };
                                        assert(steps_view(out@) =~= before.push(x));
                                        lemma_append_one(before, x, entry_steps(es, (i + 1) as nat, text_view(manifest)));
                                    }
                                },
                                Err(e) => {
                                    let mut m = String::from_str("写文件 ");
                                    push_str(&mut m, en.shown.as_str());
                                    push_str(&mut m, " 失败: ");
                                    push_str(&mut m, e.as_str());
                                    out.push(InstallStep::File { comps: copy_comps(c), shown: en.shown.clone(), data: Err(m), mode });
                                    assert(steps_view(out@) =~= before + entry_steps(es, i as nat, text_view(manifest)));
                                    return out;
                                },
                            }
                        }
                    },
                }
            },
        }
        i += 1;
    }
    match manifest {
        None => {
            out.push(InstallStep::Fail { message: String::from_str("zip 里没有 SYMLINKS.txt——不是合法 bootstrap") });
            assert(steps_view(out@) =~= entry_steps(es, 0, None));
        },
        Some(t) => {
            let ghost before = steps_view(out@);
            let mut links = link_steps_of(t.as_str());
            let ghost lv = steps_view(links@);
            out.append(&mut links);
            assert(steps_view(out@) =~= before + lv);
        },
    }
    out
}

/// The installation plan for the bootstrap archive's bytes: an archive the
/// zip crate cannot open fails at once; otherwise `install_plan` of its
/// entries.
pub fn bootstrap_plan(zip_bytes: &[u8]) -> (v: Vec<InstallStep>)
    ensures
        steps_view(v@) == bootstrap_plan_spec(zip_bytes@),
{
    match zip_entries(zip_bytes) {
        Err(e) => {
            let mut m = String::from_str("bootstrap zip 打不开: ");
            push_str(&mut m, e.as_str());
            let mut v: Vec<InstallStep> = Vec::new();
            v.push(InstallStep::Fail { message: m });
            assert(steps_view(v@) =~= bootstrap_plan_spec(zip_bytes@));
            v
        },
        Ok(entries) => install_plan(entries.as_slice()),
    }
}

} // verus!
