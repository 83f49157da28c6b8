//! Cognitive syscalls: the grammar in which a model asks the kernel for work,
//! the interceptor that watches a token stream for it, and the pieces of the
//! executor that do not touch the disk or the network.
use vstd::prelude::*;
use vstd::utf8::{decode_utf8, encode_utf8, is_char_boundary, valid_utf8};
use crate::paths::{is_safe_path, stays_inside, joined, join_path, strip_file_scheme, tenant_workspace, tenant_workspace_path, without_file_scheme};
use crate::plugins::{plugin_error_message, PluginError};
use crate::json::{as_text, member, parse_json, Json, json_document};
use crate::text::{
    scan_char, scan_char_from,
    byte_len, chars_contain, chars_match_at, chars_of, contains, occurs_at, skip_white, is_white_space,
    skip_white_from, slice_chars, string_from_chars,
};

verus! {

// ---------------------------------------------------------------------------
// Values
// ---------------------------------------------------------------------------

/// Metadata that accompanies a write: it goes into the commit that records it.
#[derive(Debug, Clone, PartialEq)]
pub struct CommitMetadata {
    pub task_id: String,
    pub version_increment: String,
    pub summary: String,
    pub impact: String,
}

pub struct CommitMetadataModel {
    pub task_id: Seq<char>,
    pub version_increment: Seq<char>,
    pub summary: Seq<char>,
    pub impact: Seq<char>,
}

impl View for CommitMetadata {
    type V = CommitMetadataModel;

    open spec fn view(&self) -> CommitMetadataModel {
        CommitMetadataModel {
            task_id: self.task_id@,
            version_increment: self.version_increment@,
            summary: self.summary@,
            impact: self.impact@,
        }
    }
}

/// Privileged operations that the model may ask of the kernel.
#[derive(Debug, Clone, PartialEq)]
pub enum Syscall {
    /// Runs a WebAssembly plugin with the given JSON arguments.
    PluginCall { plugin_name: String, args_json: String },
    /// Reads a file of the tenant's workspace.
    ReadFile { uri: String },
    /// Writes a file of the tenant's workspace through the commit log.
    WriteFile { uri: String, content: String, metadata: CommitMetadata },
}

pub enum SyscallModel {
    PluginCall { plugin_name: Seq<char>, args_json: Seq<char> },
    ReadFile { uri: Seq<char> },
    WriteFile { uri: Seq<char>, content: Seq<char>, metadata: CommitMetadataModel },
}

impl View for Syscall {
    type V = SyscallModel;

    open spec fn view(&self) -> SyscallModel {
        match self {
            Syscall::PluginCall { plugin_name, args_json } => SyscallModel::PluginCall {
                plugin_name: plugin_name@,
                args_json: args_json@,
            },
            Syscall::ReadFile { uri } => SyscallModel::ReadFile { uri: uri@ },
            Syscall::WriteFile { uri, content, metadata } => SyscallModel::WriteFile {
                uri: uri@,
                content: content@,
                metadata: metadata@,
            },
        }
    }
}

// ---------------------------------------------------------------------------
// Commit metadata from JSON, as `#[derive(Deserialize)]` reads the struct
// ---------------------------------------------------------------------------

/// The text of the member `key` of an object when it is a JSON string.
pub open spec fn text_member(members: Seq<(String, Json)>, key: Seq<char>) -> Option<Seq<char>> {
    match member(members, key) {
        Some(v) => as_text(v),
        None => None,
    }
}

/// Commit metadata read from a JSON value: an object with the four string
/// members (others are ignored), or an array of exactly four strings in
/// declaration order.
pub open spec fn commit_metadata_of(j: Json) -> Option<CommitMetadataModel> {
    match j {
        Json::Object(ms) => {
            let a = text_member(ms@, "task_id"@);
            let b = text_member(ms@, "version_increment"@);
            let c = text_member(ms@, "summary"@);
            let d = text_member(ms@, "impact"@);
            if a is Some && b is Some && c is Some && d is Some {
                Some(
                    CommitMetadataModel {
                        task_id: a->0,
                        version_increment: b->0,
                        summary: c->0,
                        impact: d->0,
                    },
                )
            } else {
                None
            }
        },
        Json::Array(items) => {
            if items@.len() == 4 && as_text(items@[0]) is Some && as_text(items@[1]) is Some
                && as_text(items@[2]) is Some && as_text(items@[3]) is Some {
                Some(
                    CommitMetadataModel {
                        task_id: as_text(items@[0])->0,
                        version_increment: as_text(items@[1])->0,
                        summary: as_text(items@[2])->0,
                        impact: as_text(items@[3])->0,
                    },
                )
            } else {
                None
            }
        },
        _ => None,
    }
}

fn text_field(j: &Json, key: &str) -> (r: Option<String>)
    requires
        j is Object,
    ensures
        r matches Some(s) ==> text_member(j->Object_0@, key@) == Some(s@),
        r is None ==> text_member(j->Object_0@, key@) is None,
{
    match j.get(key) {
        Some(v) => v.as_text(),
        None => None,
    }
}

impl CommitMetadata {
    /// Reads commit metadata from a JSON value.
    pub fn from_json(j: &Json) -> (r: Option<CommitMetadata>)
        ensures
            r matches Some(m) ==> commit_metadata_of(*j) == Some(m@),
            r is None <==> commit_metadata_of(*j) is None,
    {
        match j {
            Json::Object(_) => {
                let a = text_field(j, "task_id");
                let b = text_field(j, "version_increment");
                let c = text_field(j, "summary");
                let d = text_field(j, "impact");
                match (a, b, c, d) {
                    (Some(a), Some(b), Some(c), Some(d)) => Some(
                        CommitMetadata { task_id: a, version_increment: b, summary: c, impact: d },
                    ),
                    _ => None,
                }
            },
            Json::Array(items) => {
                if items.len() != 4 {
                    return None;
                }
                let a = items[0].as_text();
                let b = items[1].as_text();
                let c = items[2].as_text();
                let d = items[3].as_text();
                match (a, b, c, d) {
                    (Some(a), Some(b), Some(c), Some(d)) => Some(
                        CommitMetadata { task_id: a, version_increment: b, summary: c, impact: d },
                    ),
                    _ => None,
                }
            },
            _ => None,
        }
    }
}

// ---------------------------------------------------------------------------
// The syscall grammar
//
//   plugin: [SYS_CALL_PLUGIN("name",<ws>{args})]
//   read:   [READ_FILE("uri")]
//   write:  [WRITE_FILE("uri",<ws>"content",<ws>{metadata})]
//
// A name or uri is one or more characters other than `"`. The content is the
// shortest text after which the rest of the write form follows. The braces
// hold the shortest text, without a line break, after which `})]` follows.
// Each form is searched for from the left; plugin calls are looked for first,
// then reads, then writes.
// ---------------------------------------------------------------------------

pub open spec fn plugin_open() -> Seq<char> {
    "[SYS_CALL_PLUGIN(\""@
}

pub open spec fn read_open() -> Seq<char> {
    "[READ_FILE(\""@
}

pub open spec fn write_open() -> Seq<char> {
    "[WRITE_FILE(\""@
}

pub open spec fn quote_comma() -> Seq<char> {
    "\","@
}

pub open spec fn read_close() -> Seq<char> {
    "\")]"@
}

pub open spec fn call_close() -> Seq<char> {
    "})]"@
}

/// Where the closing `})]` of a brace group opened before `j` stands: the
/// first such place that no line break precedes.
pub open spec fn scan_close(t: Seq<char>, j: int) -> Option<int>
    decreases t.len() - j,
{
    if j < 0 {
        None
    } else if occurs_at(t, call_close(), j) {
        Some(j)
    } else if j >= t.len() || t[j] == '\n' {
        None
    } else {
        scan_close(t, j + 1)
    }
}

/// A quoted name that starts at `n0`: the position of its closing quote,
/// when the name is not empty.
pub open spec fn quoted_name_end(t: Seq<char>, n0: int) -> Option<int> {
    let q = scan_char(t, '"', n0);
    if n0 < q < t.len() {
        Some(q)
    } else {
        None
    }
}

/// `,<ws>{...})]` after the closing quote `q` of a name: the start of the
/// brace group and the end of the `})]`-less match (one past the `}`).
pub open spec fn brace_tail(t: Seq<char>, q: int) -> Option<(int, int)> {
    if occurs_at(t, quote_comma(), q) {
        let w = skip_white(t, q + 2);
        if w < t.len() && t[w] == '{' {
            match scan_close(t, w + 1) {
                Some(e) => Some((w, e + 1)),
                None => None,
            }
        } else {
            None
        }
    } else {
        None
    }
}

/// A plugin call that starts at `i`: name and arguments, as index ranges.
pub open spec fn plugin_at(t: Seq<char>, i: int) -> Option<(int, int, int, int)> {
    if occurs_at(t, plugin_open(), i) {
        let n0 = i + plugin_open().len();
        match quoted_name_end(t, n0) {
            Some(q) => match brace_tail(t, q) {
                Some((w, e)) => Some((n0, q, w, e)),
                None => None,
            },
            None => None,
        }
    } else {
        None
    }
}

/// A read that starts at `i`: the uri, as an index range.
pub open spec fn read_at(t: Seq<char>, i: int) -> Option<(int, int)> {
    if occurs_at(t, read_open(), i) {
        let n0 = i + read_open().len();
        match quoted_name_end(t, n0) {
            Some(q) => if occurs_at(t, read_close(), q) {
                Some((n0, q))
            } else {
                None
            },
            None => None,
        }
    } else {
        None
    }
}

/// The shortest content that starts at `c0` and reaches `c`, or later, after
/// which the rest of a write follows: its end.
pub open spec fn content_end(t: Seq<char>, c: int) -> Option<int>
    decreases t.len() - c,
{
    if c < 0 || c >= t.len() {
        None
    } else if brace_tail(t, c) is Some {
        Some(c)
    } else {
        content_end(t, c + 1)
    }
}

/// A write that starts at `i`: uri, content and metadata, as index ranges.
pub open spec fn write_at(t: Seq<char>, i: int) -> Option<(int, int, int, int, int, int)> {
    if occurs_at(t, write_open(), i) {
        let n0 = i + write_open().len();
        match quoted_name_end(t, n0) {
            Some(q) => if occurs_at(t, quote_comma(), q) {
                let w1 = skip_white(t, q + 2);
                if w1 < t.len() && t[w1] == '"' {
                    match content_end(t, w1 + 1) {
                        Some(c) => match brace_tail(t, c) {
                            Some((w2, e)) => Some((n0, q, w1 + 1, c, w2, e)),
                            None => None,
                        },
                        None => None,
                    }
                } else {
                    None
                }
            } else {
                None
            },
            None => None,
        }
    } else {
        None
    }
}

pub open spec fn first_plugin(t: Seq<char>, i: int) -> Option<(int, int, int, int)>
    decreases t.len() - i,
{
    if i < 0 || i >= t.len() {
        None
    } else if plugin_at(t, i) is Some {
        plugin_at(t, i)
    } else {
        first_plugin(t, i + 1)
    }
}

pub open spec fn first_read(t: Seq<char>, i: int) -> Option<(int, int)>
    decreases t.len() - i,
{
    if i < 0 || i >= t.len() {
        None
    } else if read_at(t, i) is Some {
        read_at(t, i)
    } else {
        first_read(t, i + 1)
    }
}

pub open spec fn first_write(t: Seq<char>, i: int) -> Option<(int, int, int, int, int, int)>
    decreases t.len() - i,
{
    if i < 0 || i >= t.len() {
        None
    } else if write_at(t, i) is Some {
        write_at(t, i)
    } else {
        first_write(t, i + 1)
    }
}

/// The syscall that a text asks for, if any.
pub open spec fn syscall_in(t: Seq<char>) -> Option<SyscallModel> {
    match first_plugin(t, 0) {
        Some((n0, q, w, e)) => Some(
            SyscallModel::PluginCall {
                plugin_name: t.subrange(n0, q),
                args_json: t.subrange(w, e),
            },
        ),
        None => match first_read(t, 0) {
            Some((n0, q)) => Some(SyscallModel::ReadFile { uri: t.subrange(n0, q) }),
            None => match first_write(t, 0) {
                Some((n0, q, c0, c, w, e)) => match json_document(t.subrange(w, e)) {
                    Some(j) => match commit_metadata_of(j) {
                        Some(m) => Some(
                            SyscallModel::WriteFile {
                                uri: t.subrange(n0, q),
                                content: t.subrange(c0, c),
                                metadata: m,
                            },
                        ),
                        None => None,
                    },
                    None => None,
                },
                None => None,
            },
        },
    }
}

/// The literals of the grammar, as characters.
struct Lexicon {
    plugin_open: Vec<char>,
    read_open: Vec<char>,
    write_open: Vec<char>,
    quote_comma: Vec<char>,
    read_close: Vec<char>,
    call_close: Vec<char>,
}

impl Lexicon {
    spec fn wf(&self) -> bool {
        &&& self.plugin_open@ == plugin_open()
        &&& self.read_open@ == read_open()
        &&& self.write_open@ == write_open()
        &&& self.quote_comma@ == quote_comma()
        &&& self.read_close@ == read_close()
        &&& self.call_close@ == call_close()
    }

    fn new() -> (l: Lexicon)
        ensures
            l.wf(),
    {
        Lexicon {
            plugin_open: chars_of("[SYS_CALL_PLUGIN(\""),
            read_open: chars_of("[READ_FILE(\""),
            write_open: chars_of("[WRITE_FILE(\""),
            quote_comma: chars_of("\","),
            read_close: chars_of("\")]"),
            call_close: chars_of("})]"),
        }
    }
}

fn scan_close_from(t: &[char], j: usize, lex: &Lexicon) -> (r: Option<usize>)
    requires
        lex.wf(),
        j <= t@.len(),
    ensures
        r matches Some(e) ==> scan_close(t@, j as int) == Some(e as int) && j <= e && e + 3 <= t@.len(),
        r is None ==> scan_close(t@, j as int) is None,
{
    let mut k = j;
    loop
        invariant
            lex.wf(),
            j <= k <= t@.len(),
            scan_close(t@, j as int) == scan_close(t@, k as int),
        decreases t@.len() - k,
    {
        if chars_match_at(t, k, &lex.call_close) {
            proof {
                reveal_strlit("})]");
            }
            return Some(k);
        }
        if k >= t.len() || t[k] == '\n' {
            return None;
        }
        k = k + 1;
    }
}

fn quoted_name_end_at(t: &[char], n0: usize) -> (r: Option<usize>)
    requires
        n0 <= t@.len(),
    ensures
        r matches Some(q) ==> quoted_name_end(t@, n0 as int) == Some(q as int) && q < t@.len(),
        r is None ==> quoted_name_end(t@, n0 as int) is None,
{
    let q = scan_char_from(t, '"', n0);
    if n0 < q && q < t.len() {
        Some(q)
    } else {
        None
    }
}

fn brace_tail_at(t: &[char], q: usize, lex: &Lexicon) -> (r: Option<(usize, usize)>)
    requires
        lex.wf(),
        q <= t@.len(),
    ensures
        r matches Some((w, e)) ==> brace_tail(t@, q as int) == Some((w as int, e as int)) && q + 2 <= w < e <= t@.len(),
        r is None ==> brace_tail(t@, q as int) is None,
{
    let tl = t.len();
    assert(tl == t@.len());
    if !chars_match_at(t, q, &lex.quote_comma) {
        return None;
    }
    proof {
        reveal_strlit("\",");
    }
    let w = skip_white_from(t, q + 2);
    if w < t.len() && t[w] == '{' {
        match scan_close_from(t, w + 1, lex) {
            Some(e) => Some((w, e + 1)),
            None => None,
        }
    } else {
        None
    }
}

fn plugin_at_pos(t: &[char], i: usize, lex: &Lexicon) -> (r: Option<(usize, usize, usize, usize)>)
    requires
        lex.wf(),
        i <= t@.len(),
    ensures
        r matches Some((a, b, c, d)) ==> plugin_at(t@, i as int) == Some((a as int, b as int, c as int, d as int))
            && a <= b <= c <= d <= t@.len(),
        r is None ==> plugin_at(t@, i as int) is None,
{
    let tl = t.len();
    assert(tl == t@.len());
    if !chars_match_at(t, i, &lex.plugin_open) {
        return None;
    }
    let n0 = i + lex.plugin_open.len();
    match quoted_name_end_at(t, n0) {
        Some(q) => match brace_tail_at(t, q, lex) {
            Some((w, e)) => Some((n0, q, w, e)),
            None => None,
        },
        None => None,
    }
}

fn read_at_pos(t: &[char], i: usize, lex: &Lexicon) -> (r: Option<(usize, usize)>)
    requires
        lex.wf(),
        i <= t@.len(),
    ensures
        r matches Some((a, b)) ==> read_at(t@, i as int) == Some((a as int, b as int)) && a <= b <= t@.len(),
        r is None ==> read_at(t@, i as int) is None,
{
    let tl = t.len();
    assert(tl == t@.len());
    if !chars_match_at(t, i, &lex.read_open) {
        return None;
    }
    let n0 = i + lex.read_open.len();
    match quoted_name_end_at(t, n0) {
        Some(q) => if chars_match_at(t, q, &lex.read_close) {
            Some((n0, q))
        } else {
            None
        },
        None => None,
    }
}

fn content_end_from(t: &[char], c0: usize, lex: &Lexicon) -> (r: Option<usize>)
    requires
        lex.wf(),
        c0 <= t@.len(),
    ensures
        r matches Some(c) ==> content_end(t@, c0 as int) == Some(c as int) && c0 <= c < t@.len(),
        r is None ==> content_end(t@, c0 as int) is None,
{
    let mut c = c0;
    while c < t.len()
        invariant
            lex.wf(),
            c0 <= c <= t@.len(),
            content_end(t@, c0 as int) == content_end(t@, c as int),
        decreases t@.len() - c,
    {
        if brace_tail_at(t, c, lex).is_some() {
            return Some(c);
        }
        c = c + 1;
    }
    None
}

fn write_at_pos(t: &[char], i: usize, lex: &Lexicon) -> (r: Option<(usize, usize, usize, usize, usize, usize)>)
    requires
        lex.wf(),
        i <= t@.len(),
    ensures
        r matches Some((a, b, c, d, e, f)) ==> write_at(t@, i as int) == Some(
            (a as int, b as int, c as int, d as int, e as int, f as int),
        ) && a <= b <= t@.len() && c <= d <= t@.len() && e <= f <= t@.len(),
        r is None ==> write_at(t@, i as int) is None,
{
    let tl = t.len();
    assert(tl == t@.len());
    if !chars_match_at(t, i, &lex.write_open) {
        return None;
    }
    let n0 = i + lex.write_open.len();
    let q = match quoted_name_end_at(t, n0) {
        Some(q) => q,
        None => {
            return None;
        },
    };
    if !chars_match_at(t, q, &lex.quote_comma) {
        return None;
    }
    proof {
        reveal_strlit("\",");
    }
    let w1 = skip_white_from(t, q + 2);
    if !(w1 < t.len() && t[w1] == '"') {
        return None;
    }
    match content_end_from(t, w1 + 1, lex) {
        Some(c) => match brace_tail_at(t, c, lex) {
            Some((w2, e)) => Some((n0, q, w1 + 1, c, w2, e)),
            None => None,
        },
        None => None,
    }
}

fn first_plugin_pos(t: &[char], lex: &Lexicon) -> (r: Option<(usize, usize, usize, usize)>)
    requires
        lex.wf(),
    ensures
        r matches Some((a, b, c, d)) ==> first_plugin(t@, 0) == Some((a as int, b as int, c as int, d as int))
            && a <= b <= c <= d <= t@.len(),
        r is None ==> first_plugin(t@, 0) is None,
{
    let mut i: usize = 0;
    while i < t.len()
        invariant
            lex.wf(),
            i <= t@.len(),
            first_plugin(t@, 0) == first_plugin(t@, i as int),
        decreases t@.len() - i,
    {
        let m = plugin_at_pos(t, i, lex);
        if m.is_some() {
            return m;
        }
        i = i + 1;
    }
    None
}

fn first_read_pos(t: &[char], lex: &Lexicon) -> (r: Option<(usize, usize)>)
    requires
        lex.wf(),
    ensures
        r matches Some((a, b)) ==> first_read(t@, 0) == Some((a as int, b as int)) && a <= b <= t@.len(),
        r is None ==> first_read(t@, 0) is None,
{
    let mut i: usize = 0;
    while i < t.len()
        invariant
            lex.wf(),
            i <= t@.len(),
            first_read(t@, 0) == first_read(t@, i as int),
        decreases t@.len() - i,
    {
        let m = read_at_pos(t, i, lex);
        if m.is_some() {
            return m;
        }
        i = i + 1;
    }
    None
}

fn first_write_pos(t: &[char], lex: &Lexicon) -> (r: Option<(usize, usize, usize, usize, usize, usize)>)
    requires
        lex.wf(),
    ensures
        r matches Some((a, b, c, d, e, f)) ==> first_write(t@, 0) == Some(
            (a as int, b as int, c as int, d as int, e as int, f as int),
        ) && a <= b <= t@.len() && c <= d <= t@.len() && e <= f <= t@.len(),
        r is None ==> first_write(t@, 0) is None,
{
    let mut i: usize = 0;
    while i < t.len()
        invariant
            lex.wf(),
            i <= t@.len(),
            first_write(t@, 0) == first_write(t@, i as int),
        decreases t@.len() - i,
    {
        let m = write_at_pos(t, i, lex);
        if m.is_some() {
            return m;
        }
        i = i + 1;
    }
    None
}

/// Finds the syscall that a text of the model asks for.
pub fn parse_syscall(text: &str) -> (r: Option<Syscall>)
    ensures
        r matches Some(s) ==> syscall_in(text@) == Some(s@),
        r is None <==> syscall_in(text@) is None,
{
    let lex = Lexicon::new();
    let t = chars_of(text);
    let ghost tv = text@;
    if let Some((n0, q, w, e)) = first_plugin_pos(&t, &lex) {
        let plugin_name = string_from_chars(&slice_chars(&t, n0, q));
        let args_json = string_from_chars(&slice_chars(&t, w, e));
        return Some(Syscall::PluginCall { plugin_name, args_json });
    }
    if let Some((n0, q)) = first_read_pos(&t, &lex) {
        let uri = string_from_chars(&slice_chars(&t, n0, q));
        return Some(Syscall::ReadFile { uri });
    }
    if let Some((n0, q, c0, c, w, e)) = first_write_pos(&t, &lex) {
        let meta_text = string_from_chars(&slice_chars(&t, w, e));
        match parse_json(meta_text.as_str()) {
            Ok(j) => match CommitMetadata::from_json(&j) {
                Some(metadata) => {
                    let uri = string_from_chars(&slice_chars(&t, n0, q));
                    let content = string_from_chars(&slice_chars(&t, c0, c));
                    return Some(Syscall::WriteFile { uri, content, metadata });
                },
                None => {
                    return None;
                },
            },
            Err(_) => {
                return None;
            },
        }
    }
    None
}

} // verus!

verus! {

// ---------------------------------------------------------------------------
// Stream interceptor
// ---------------------------------------------------------------------------

/// Bytes of model output that the interceptor keeps in view.
pub const INTERCEPTOR_WINDOW: usize = 1024;

/// What the interceptor makes of the stream so far.
#[derive(Debug, PartialEq)]
pub enum InterceptorResult {
    /// Nothing that looks like a syscall yet: let inference go on.
    Continue,
    /// The start of a syscall was seen; its end has not been parsed yet.
    PossibleSyscall,
    /// A complete syscall was parsed from the window.
    SyscallReady(Syscall),
}

/// The first character boundary of `bytes` at or after `i`.
pub open spec fn boundary_from(bytes: Seq<u8>, i: int) -> int
    decreases bytes.len() - i,
{
    if i >= bytes.len() || is_char_boundary(bytes, i) {
        i
    } else {
        boundary_from(bytes, i + 1)
    }
}

/// The text kept after appending `token` to `buffer`: when the whole would
/// be longer than `INTERCEPTOR_WINDOW` bytes, what follows the first
/// character boundary at or after the cut that keeps the last
/// `INTERCEPTOR_WINDOW` bytes, so that no character is split.
pub open spec fn window_after(buffer: Seq<char>, token: Seq<char>) -> Seq<char> {
    let whole = buffer + token;
    let bytes = encode_utf8(whole);
    if byte_len(whole) > INTERCEPTOR_WINDOW {
        decode_utf8(
            bytes.subrange(boundary_from(bytes, byte_len(whole) - INTERCEPTOR_WINDOW), bytes.len() as int),
        )
    } else {
        whole
    }
}

proof fn lemma_boundary_from(bytes: Seq<u8>, i: int)
    requires
        valid_utf8(bytes),
        0 <= i <= bytes.len(),
    ensures
        i <= boundary_from(bytes, i) <= bytes.len(),
        is_char_boundary(bytes, boundary_from(bytes, i)),
    decreases bytes.len() - i,
{
    if i >= bytes.len() {
        vstd::utf8::is_char_boundary_start_end_of_seq(bytes);
    } else if !is_char_boundary(bytes, i) {
        lemma_boundary_from(bytes, i + 1);
    }
}

/// The window shows the opening of a syscall.
pub open spec fn shows_trigger(w: Seq<char>) -> bool {
    &&& contains(w, "["@)
    &&& (contains(w, "[SYS"@) || contains(w, "[READ"@) || contains(w, "[WRITE"@))
}

/// Watches generated tokens for a syscall, so that inference can be stopped
/// as soon as one is complete.
pub struct StreamInterceptor {
    buffer: String,
    trigger_detected: bool,
    max_buffer_size: usize,
}

impl View for StreamInterceptor {
    /// The text in view, and whether the opening of a syscall has been seen.
    type V = (Seq<char>, bool);

    closed spec fn view(&self) -> (Seq<char>, bool) {
        (self.buffer@, self.trigger_detected)
    }
}

impl StreamInterceptor {
    #[verifier::type_invariant]
    spec fn inv(self) -> bool {
        self.max_buffer_size == INTERCEPTOR_WINDOW
    }

    pub fn new() -> (s: StreamInterceptor)
        ensures
            s@.0 == Seq::<char>::empty(),
            !s@.1,
    {
        StreamInterceptor {
            buffer: String::new(),
            trigger_detected: false,
            max_buffer_size: INTERCEPTOR_WINDOW,
        }
    }

    /// Takes the next token of the stream and says whether inference should
    /// stop for a syscall.
    pub fn push_token(&mut self, token: &str) -> (r: InterceptorResult)
        requires
            encode_utf8(old(self)@.0 + token@).len() <= usize::MAX,
        ensures
            final(self)@.0 == window_after(old(self)@.0, token@),
            !old(self)@.1 && (contains(final(self)@.0, write_open()) || contains(final(self)@.0, read_open())
                || contains(final(self)@.0, plugin_open())) ==> r is PossibleSyscall,
            !old(self)@.1 ==> (if shows_trigger(final(self)@.0) {
                final(self)@.1 && r is PossibleSyscall
            } else {
                !final(self)@.1 && r is Continue
            }),
            old(self)@.1 ==> final(self)@.1 && (if contains(final(self)@.0, "]"@) && syscall_in(
                final(self)@.0,
            ) is Some {
                r matches InterceptorResult::SyscallReady(s) && syscall_in(final(self)@.0) == Some(s@)
            } else {
                r is PossibleSyscall
            }),
    {
        proof {
            use_type_invariant(&*self);
        }
        let ghost whole = self.buffer@ + token@;
        self.buffer = crate::text::concat2(self.buffer.as_str(), token);
        assert(self.buffer@ == whole);
        let len = self.buffer.as_str().len();
        if len > self.max_buffer_size {
            let ghost bytes = encode_utf8(whole);
            let start = len - self.max_buffer_size;
            let mut cut = start;
            proof {
                vstd::utf8::encode_utf8_valid_utf8(whole);
                lemma_boundary_from(bytes, start as int);
            }
            while cut < len && !self.buffer.as_str().is_char_boundary(cut)
                invariant
                    start <= cut <= len,
                    len == bytes.len(),
                    bytes == encode_utf8(whole),
                    self.buffer@ == whole,
                    boundary_from(bytes, start as int) == boundary_from(bytes, cut as int),
                decreases len - cut,
            {
                cut = cut + 1;
            }
            proof {
                lemma_boundary_from(bytes, cut as int);
            }
            let kept = String::from_str(self.buffer.as_str().split_at(cut).1);
            proof {
                vstd::utf8::encode_utf8_decode_utf8(kept@);
            }
            self.buffer = kept;
        }
        let w = chars_of(self.buffer.as_str());
        proof {
            law_syscall_openings_trigger(self.buffer@);
        }
        if !self.trigger_detected {
            let open = chars_contain(&w, &chars_of("["));
            if open {
                let sys = chars_contain(&w, &chars_of("[SYS"));
                let read = chars_contain(&w, &chars_of("[READ"));
                let write = chars_contain(&w, &chars_of("[WRITE"));
                if sys || read || write {
                    self.trigger_detected = true;
                    return InterceptorResult::PossibleSyscall;
                }
            }
            InterceptorResult::Continue
        } else {
            if chars_contain(&w, &chars_of("]")) {
                if let Some(syscall) = parse_syscall(self.buffer.as_str()) {
                    return InterceptorResult::SyscallReady(syscall);
                }
            }
            InterceptorResult::PossibleSyscall
        }
    }

    /// The text in view.
    pub fn buffer(&self) -> (r: &str)
        ensures
            r@ == self@.0,
    {
        self.buffer.as_str()
    }
}

} // verus!

verus! {

// ---------------------------------------------------------------------------
// Executor
// ---------------------------------------------------------------------------

/// Failures of a syscall.
#[derive(Debug, Clone, PartialEq)]
pub enum SyscallError {
    PluginError(String),
    AccessDenied(String),
    SecurityViolation(String),
    IOError(String),
    InternalError(String),
}

impl SyscallError {
    pub fn message(&self) -> (m: String)
        ensures
            m@ == match *self {
                SyscallError::PluginError(d) => "Plugin Execution Failed: "@ + d@,
                SyscallError::AccessDenied(d) => "File Access Denied: "@ + d@,
                SyscallError::SecurityViolation(d) => "Security Violation (SSRF Guard): "@ + d@,
                SyscallError::IOError(d) => "IO Error: "@ + d@,
                SyscallError::InternalError(d) => "Internal Kernel Error: "@ + d@,
            },
    {
        match self {
            SyscallError::PluginError(d) => crate::text::concat2("Plugin Execution Failed: ", d.as_str()),
            SyscallError::AccessDenied(d) => crate::text::concat2("File Access Denied: ", d.as_str()),
            SyscallError::SecurityViolation(d) => crate::text::concat2(
                "Security Violation (SSRF Guard): ",
                d.as_str(),
            ),
            SyscallError::IOError(d) => crate::text::concat2("IO Error: ", d.as_str()),
            SyscallError::InternalError(d) => crate::text::concat2("Internal Kernel Error: ", d.as_str()),
        }
    }
}

/// A failed download seen from the syscall layer: a refusal by the network
/// guard stays a security violation, anything else is an I/O error.
pub fn syscall_error_from_plugin(e: &PluginError) -> (r: SyscallError)
    ensures
        match *e {
            PluginError::SecurityViolation(m) => r == SyscallError::SecurityViolation(m),
            _ => r matches SyscallError::IOError(m) && m@ == plugin_error_message(*e),
        },
{
    match e {
        PluginError::SecurityViolation(m) => SyscallError::SecurityViolation(m.clone()),
        _ => SyscallError::IOError(e.message()),
    }
}

/// The tenant a process works for (`default` when it has none).
pub open spec fn tenant_of(tenant_id: Option<String>) -> Seq<char> {
    match tenant_id {
        Some(t) => t@,
        None => "default"@,
    }
}

pub fn effective_tenant(tenant_id: &Option<String>) -> (r: String)
    ensures
        r@ == tenant_of(*tenant_id),
{
    match tenant_id {
        Some(t) => t.clone(),
        None => crate::text::owned("default"),
    }
}

/// The work a syscall stands for.
pub enum SyscallPlan {
    /// Run a plugin in the tenant's sandbox.
    RunPlugin { tenant_id: String, plugin_name: String, args_json: String },
    /// Read a file of the tenant's workspace.
    ReadWorkspaceFile { uri: String, path: String },
    /// Write a file of the tenant's workspace and commit it.
    CommitWrite { tenant_id: String, uri: String, file_path: String, content: String, metadata: CommitMetadata },
}

/// Turns a syscall of a process into the work the kernel does for it. A read
/// or write whose path would leave the tenant's workspace is refused before
/// anything touches the disk.
pub fn plan_syscall(tenant_id: &Option<String>, syscall: Syscall) -> (r: Result<SyscallPlan, SyscallError>)
    ensures
        match syscall {
            Syscall::PluginCall { plugin_name, args_json } => r matches Ok(p) && p == SyscallPlan::RunPlugin {
                tenant_id: p->RunPlugin_tenant_id,
                plugin_name,
                args_json,
            } && p->RunPlugin_tenant_id@ == tenant_of(*tenant_id),
            Syscall::ReadFile { uri } => if stays_inside(without_file_scheme(uri@)) {
                r matches Ok(p) && p is ReadWorkspaceFile && p->ReadWorkspaceFile_uri == uri
                    && p->ReadWorkspaceFile_path@ == joined(
                    tenant_workspace(tenant_of(*tenant_id)),
                    without_file_scheme(uri@),
                )
            } else {
                r matches Err(SyscallError::AccessDenied(m)) && m@ == without_file_scheme(uri@)
            },
            Syscall::WriteFile { uri, content, metadata } => if stays_inside(without_file_scheme(uri@)) {
                r matches Ok(p) && p is CommitWrite && p->CommitWrite_uri == uri
                    && p->CommitWrite_tenant_id@ == tenant_of(*tenant_id) && p->CommitWrite_file_path@
                    == without_file_scheme(uri@) && p->CommitWrite_content == content
                    && p->CommitWrite_metadata == metadata
            } else {
                r matches Err(SyscallError::AccessDenied(m)) && m@ == without_file_scheme(uri@)
            },
        },
{
    let tenant = effective_tenant(tenant_id);
    match syscall {
        Syscall::PluginCall { plugin_name, args_json } => Ok(SyscallPlan::RunPlugin {
            tenant_id: tenant,
            plugin_name,
            args_json,
        }),
        Syscall::ReadFile { uri } => {
            let rel = strip_file_scheme(uri.as_str());
            if !is_safe_path(tenant.as_str(), rel.as_str()) {
                return Err(SyscallError::AccessDenied(rel));
            }
            let root = tenant_workspace_path(tenant.as_str());
            let path = join_path(root.as_str(), rel.as_str());
            Ok(SyscallPlan::ReadWorkspaceFile { uri, path })
        },
        Syscall::WriteFile { uri, content, metadata } => {
            let file_path = strip_file_scheme(uri.as_str());
            if !is_safe_path(tenant.as_str(), file_path.as_str()) {
                return Err(SyscallError::AccessDenied(file_path));
            }
            Ok(SyscallPlan::CommitWrite { tenant_id: tenant, uri, file_path, content, metadata })
        },
    }
}

/// What a successful plugin syscall returns to the model.
pub fn plugin_result_text(result: &str) -> (r: String)
    ensures
        r@ == "[SYSTEM_RESULT: "@ + result@ + "]"@,
{
    crate::text::concat3("[SYSTEM_RESULT: ", result, "]")
}

/// What a successful read returns to the model.
pub fn read_result_text(uri: &str, content: &str) -> (r: String)
    ensures
        r@ == "[SYSTEM_RESULT: Content of "@ + uri@ + "]\n"@ + content@,
{
    let mut r = crate::text::concat3("[SYSTEM_RESULT: Content of ", uri, "]\n");
    r.append(content);
    r
}

/// What a successful write returns to the model.
pub fn write_result_text(uri: &str) -> (r: String)
    ensures
        r@ == "[SYSTEM_RESULT: File "@ + uri@ + " written and committed to Git]"@,
{
    crate::text::concat3("[SYSTEM_RESULT: File ", uri, " written and committed to Git]")
}

/// The error of a failed plugin run.
pub fn plugin_failure(e: &PluginError) -> (r: SyscallError)
    ensures
        r matches SyscallError::PluginError(m) && m@ == plugin_error_message(*e),
{
    SyscallError::PluginError(e.message())
}

/// The error of a failed read.
pub fn read_failure(uri: &str, cause: &str) -> (r: SyscallError)
    ensures
        r matches SyscallError::IOError(m) && m@ == "Read failed for "@ + uri@ + ": "@ + cause@,
{
    let mut m = crate::text::concat3("Read failed for ", uri, ": ");
    m.append(cause);
    SyscallError::IOError(m)
}

/// The error of a failed write.
pub fn write_failure(cause: &str) -> (r: SyscallError)
    ensures
        r matches SyscallError::IOError(m) && m@ == "Scribe write failed: "@ + cause@,
{
    SyscallError::IOError(crate::text::concat2("Scribe write failed: ", cause))
}

} // verus!

verus! {

// ---------------------------------------------------------------------------
// Laws
// ---------------------------------------------------------------------------

/// The interceptor never keeps more than `INTERCEPTOR_WINDOW` bytes of text.
pub proof fn law_window_is_bounded(buffer: Seq<char>, token: Seq<char>)
    requires
        encode_utf8(buffer + token).len() < usize::MAX,
    ensures
        byte_len(window_after(buffer, token)) <= INTERCEPTOR_WINDOW,
{
    let whole = buffer + token;
    let bytes = encode_utf8(whole);
    if byte_len(whole) > INTERCEPTOR_WINDOW {
        vstd::utf8::encode_utf8_valid_utf8(whole);
        lemma_boundary_from(bytes, byte_len(whole) - INTERCEPTOR_WINDOW);
        let cut = boundary_from(bytes, byte_len(whole) - INTERCEPTOR_WINDOW);
        vstd::utf8::valid_utf8_split(bytes, cut);
        let kept = bytes.subrange(cut, bytes.len() as int);
        vstd::utf8::decode_utf8_encode_utf8(kept);
        assert(encode_utf8(window_after(buffer, token)) == kept);
    }
}

proof fn lemma_opening_holds_prefix(w: Seq<char>, open: Seq<char>, key: Seq<char>, j: int)
    requires
        occurs_at(w, open, j),
        key.len() <= open.len(),
        open.subrange(0, key.len() as int) == key,
    ensures
        occurs_at(w, key, j),
{
    assert(w.subrange(j, j + key.len()) =~= w.subrange(j, j + open.len()).subrange(0, key.len() as int));
}

/// A window that holds the opening of a syscall (of a plugin call, a read
/// or a write) shows the trigger that makes the interceptor stop inference.
pub proof fn law_syscall_openings_trigger(w: Seq<char>)
    ensures
        contains(w, plugin_open()) ==> shows_trigger(w),
        contains(w, read_open()) ==> shows_trigger(w),
        contains(w, write_open()) ==> shows_trigger(w),
{
    reveal_strlit("[SYS_CALL_PLUGIN(\"");
    reveal_strlit("[READ_FILE(\"");
    reveal_strlit("[WRITE_FILE(\"");
    reveal_strlit("[SYS");
    reveal_strlit("[READ");
    reveal_strlit("[WRITE");
    reveal_strlit("[");
    if contains(w, plugin_open()) {
        let j = choose|j: int| occurs_at(w, plugin_open(), j);
        assert(plugin_open().subrange(0, 1) =~= "["@);
        assert(plugin_open().subrange(0, 4) =~= "[SYS"@);
        lemma_opening_holds_prefix(w, plugin_open(), "["@, j);
        lemma_opening_holds_prefix(w, plugin_open(), "[SYS"@, j);
    }
    if contains(w, read_open()) {
        let j = choose|j: int| occurs_at(w, read_open(), j);
        assert(read_open().subrange(0, 1) =~= "["@);
        assert(read_open().subrange(0, 5) =~= "[READ"@);
        lemma_opening_holds_prefix(w, read_open(), "["@, j);
        lemma_opening_holds_prefix(w, read_open(), "[READ"@, j);
    }
    if contains(w, write_open()) {
        let j = choose|j: int| occurs_at(w, write_open(), j);
        assert(write_open().subrange(0, 1) =~= "["@);
        assert(write_open().subrange(0, 6) =~= "[WRITE"@);
        lemma_opening_holds_prefix(w, write_open(), "["@, j);
        lemma_opening_holds_prefix(w, write_open(), "[WRITE"@, j);
    }
}

proof fn lemma_first_openings(t: Seq<char>, i: int)
    ensures
        first_plugin(t, i) is Some ==> contains(t, plugin_open()),
        first_read(t, i) is Some ==> contains(t, read_open()),
        first_write(t, i) is Some ==> contains(t, write_open()),
    decreases t.len() - i,
{
    if 0 <= i < t.len() {
        if plugin_at(t, i) is Some {
            assert(occurs_at(t, plugin_open(), i));
        }
        if read_at(t, i) is Some {
            assert(occurs_at(t, read_open(), i));
        }
        if write_at(t, i) is Some {
            assert(occurs_at(t, write_open(), i));
        }
        lemma_first_openings(t, i + 1);
    }
}

/// Every syscall that a text asks for, a plugin call, a read or a write,
/// shows in it the trigger on which the interceptor stops inference: no
/// complete syscall passes unnoticed.
pub proof fn law_every_syscall_shows_trigger(t: Seq<char>)
    ensures
        syscall_in(t) is Some ==> shows_trigger(t),
        syscall_in(t) matches Some(SyscallModel::WriteFile { .. }) ==> contains(t, write_open()),
{
    lemma_first_openings(t, 0);
    law_syscall_openings_trigger(t);
}

proof fn lemma_scan_quote_over(t: Seq<char>, from: int, len: int)
    requires
        0 <= from,
        from + len < t.len(),
        0 <= len,
        forall|k: int| from <= k < from + len ==> t[k] != '"',
        t[from + len] == '"',
    ensures
        scan_char(t, '"', from) == from + len,
    decreases len,
{
    if len > 0 {
        lemma_scan_quote_over(t, from + 1, len - 1);
    }
}

proof fn lemma_scan_close_over(t: Seq<char>, from: int, len: int)
    requires
        0 <= from,
        from + len + 3 <= t.len(),
        0 <= len,
        forall|k: int| from <= k < from + len ==> t[k] != '\n' && !occurs_at(t, call_close(), k),
        occurs_at(t, call_close(), from + len),
    ensures
        scan_close(t, from) == Some(from + len),
    decreases len,
{
    if len > 0 {
        lemma_scan_close_over(t, from + 1, len - 1);
    }
}

/// A plugin call written in the format the master prompt teaches,
/// `[SYS_CALL_PLUGIN("name", {args})]`, is read back as that call: for a
/// name without quotes and arguments in braces, on one line, that hold no
/// `})]` of their own.
pub proof fn law_plugin_call_round_trip(name: Seq<char>, body: Seq<char>)
    requires
        name.len() > 0,
        forall|k: int| 0 <= k < name.len() ==> name[k] != '"',
        forall|k: int| 0 <= k < body.len() ==> body[k] != '\n',
        forall|k: int| 0 <= k < body.len() ==> !occurs_at(body + "})]"@, "})]"@, k),
    ensures
        syscall_in(plugin_open() + name + "\", {"@ + body + "})]"@) == Some(
            SyscallModel::PluginCall { plugin_name: name, args_json: seq!['{'] + body + seq!['}'] },
        ),
{
    reveal_strlit("[SYS_CALL_PLUGIN(\"");
    reveal_strlit("\", {");
    reveal_strlit("})]");
    reveal_strlit("\",");
    let t = plugin_open() + name + "\", {"@ + body + "})]"@;
    let n0 = 18int;
    let q = n0 + name.len();
    let w = q + 3;
    let b0 = w + 1;
    let e = b0 + body.len();
    assert(t.len() == e + 3);
    assert(t.subrange(0, 18) =~= plugin_open());
    assert(occurs_at(t, plugin_open(), 0));
    assert forall|k: int| n0 <= k < q implies t[k] != '"' by {
        assert(t[k] == name[k - n0]);
    }
    assert(t[q] == '"');
    lemma_scan_quote_over(t, n0, name.len() as int);
    assert(t.subrange(q, q + 2) =~= quote_comma());
    assert(t[q + 2] == ' ');
    assert(t[w] == '{');
    assert(!is_white_space(t[w]));
    assert(skip_white(t, w) == w);
    assert(is_white_space(t[q + 2]));
    assert(skip_white(t, q + 2) == w);
    let tail = body + "})]"@;
    assert forall|k: int| b0 <= k < e implies t[k] != '\n' && !occurs_at(t, call_close(), k) by {
        assert(t[k] == body[k - b0]);
        if occurs_at(t, call_close(), k) {
            assert(t.subrange(k, k + 3) =~= tail.subrange(k - b0, k - b0 + 3));
            assert(occurs_at(tail, "})]"@, k - b0));
        }
    }
    assert(t.subrange(e, e + 3) =~= call_close());
    lemma_scan_close_over(t, b0, body.len() as int);
    assert(plugin_at(t, 0) == Some((n0, q, w, e + 1)));
    assert(t.subrange(n0, q) =~= name);
    assert(t.subrange(w, e + 1) =~= seq!['{'] + body + seq!['}']);
}

} // verus!
