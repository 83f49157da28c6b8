//! The standard plugins' logic: HTML cleaning for `std_net`, workspace paths
//! and request routing for `std_fs`, and the `std_sys` actions.
use vstd::prelude::*;
use crate::paths::{is_safe_path, stays_inside};
use crate::json::{as_text, index_key, json_document, member, parse_json, Json};
use crate::text::{
    lemma_trimmed_keeps,
    chars_of, char_is_white_space, concat2, is_white_space, lemma_scan_char, owned, scan_char,
    scan_char_from, slice_chars, str_eq, string_from_chars, trim_chars, trimmed,
};

verus! {

// ---------------------------------------------------------------------------
// std_net: HTML to readable text
// ---------------------------------------------------------------------------

pub open spec fn ascii_lower(c: char) -> char {
    if 'A' <= c && c <= 'Z' {
        ((c as u32) + 32) as char
    } else {
        c
    }
}

pub open spec fn lower_all(s: Seq<char>) -> Seq<char> {
    s.map_values(|c: char| ascii_lower(c))
}

fn to_ascii_lower(c: char) -> (r: char)
    ensures
        r == ascii_lower(c),
{
    if 'A' <= c && c <= 'Z' {
        let u = (c as u32) + 32;
        // The result lies in 'a'..='z', which are scalar values.
        char_from_ascii(u)
    } else {
        c
    }
}

fn char_from_ascii(u: u32) -> (c: char)
    requires
        97 <= u <= 122,
    ensures
        c == (u as char),
{
    let table = chars_of("abcdefghijklmnopqrstuvwxyz");
    proof {
        reveal_strlit("abcdefghijklmnopqrstuvwxyz");
    }
    let i = (u - 97) as usize;
    let c = table[i];
    proof {
        assert(table@[i as int] == "abcdefghijklmnopqrstuvwxyz"@[i as int]);
    }
    c
}

/// End of the tag name that starts at `j`: the first `>` or white space.
pub open spec fn tag_name_end(s: Seq<char>, j: int) -> int
    decreases s.len() - j,
{
    if j < 0 || j >= s.len() {
        s.len() as int
    } else if s[j] == '>' || is_white_space(s[j]) {
        j
    } else {
        tag_name_end(s, j + 1)
    }
}

pub proof fn lemma_tag_name_end(s: Seq<char>, j: int)
    requires
        0 <= j <= s.len(),
    ensures
        j <= tag_name_end(s, j) <= s.len(),
    decreases s.len() - j,
{
    if j < s.len() && !(s[j] == '>' || is_white_space(s[j])) {
        lemma_tag_name_end(s, j + 1);
    }
}

/// Whether script or style content is being passed over after a tag with
/// this (lower-case) name: a `script` or `style` tag starts such content and
/// its closing tag ends it.
pub open spec fn hidden_after(hidden: bool, name: Seq<char>) -> bool {
    if name == "script"@ || name == "style"@ {
        true
    } else if name == "/script"@ || name == "/style"@ {
        false
    } else {
        hidden
    }
}

/// The text outside markup, from position `i` on: a `<` opens a tag, a `>`
/// closes one, and other characters are kept outside tags and outside the
/// content of `script` and `style` elements.
pub open spec fn visible_text(s: Seq<char>, i: int, in_tag: bool, hidden: bool) -> Seq<char>
    decreases s.len() - i,
{
    if i < 0 || i >= s.len() {
        Seq::empty()
    } else if s[i] == '<' {
        proof {
            lemma_tag_name_end(s, i + 1);
        }
        let j = tag_name_end(s, i + 1);
        let name = lower_all(s.subrange(i + 1, j));
        visible_text(s, j, true, hidden_after(hidden, name))
    } else if s[i] == '>' {
        visible_text(s, i + 1, false, hidden)
    } else if !in_tag && !hidden {
        seq![s[i]] + visible_text(s, i + 1, in_tag, hidden)
    } else {
        visible_text(s, i + 1, in_tag, hidden)
    }
}

/// The non-empty lines of `s` from position `i` on, each trimmed.
pub open spec fn kept_lines(s: Seq<char>, i: int) -> Seq<Seq<char>>
    decreases s.len() - i,
{
    if i < 0 || i > s.len() {
        Seq::empty()
    } else {
        proof {
            lemma_scan_char(s, '\n', i);
        }
        let e = scan_char(s, '\n', i);
        let t = trimmed(s.subrange(i, e));
        let rest = if e >= s.len() {
            Seq::<Seq<char>>::empty()
        } else {
            kept_lines(s, e + 1)
        };
        if t.len() > 0 {
            seq![t] + rest
        } else {
            rest
        }
    }
}

/// Lines joined with line breaks.
pub open spec fn join_lines(lines: Seq<Seq<char>>) -> Seq<char>
    decreases lines.len(),
{
    if lines.len() == 0 {
        Seq::empty()
    } else if lines.len() == 1 {
        lines[0]
    } else {
        join_lines(lines.drop_last()) + seq!['\n'] + lines.last()
    }
}

/// What `clean_html` makes of a page.
pub open spec fn cleaned_html(html: Seq<char>) -> Seq<char> {
    join_lines(kept_lines(visible_text(html, 0, false, false), 0))
}

fn name_is(name: &Vec<char>, word: &Vec<char>) -> (b: bool)
    ensures
        b <==> name@ == word@,
{
    let b = name.len() == word.len() && crate::text::chars_match_at(name, 0, word);
    proof {
        if b {
            assert(name@ =~= name@.subrange(0, word@.len() as int));
        }
        if name@ == word@ {
            assert(name@.subrange(0, word@.len() as int) =~= name@);
        }
    }
    b
}

fn strip_markup(s: &[char]) -> (out: Vec<char>)
    ensures
        out@ == visible_text(s@, 0, false, false),
{
    let script = chars_of("script");
    let style = chars_of("style");
    let end_script = chars_of("/script");
    let end_style = chars_of("/style");
    let mut out: Vec<char> = Vec::new();
    let mut in_tag = false;
    let mut hidden = false;
    let mut i: usize = 0;
    while i < s.len()
        invariant
            script@ == "script"@,
            style@ == "style"@,
            end_script@ == "/script"@,
            end_style@ == "/style"@,
            i <= s@.len(),
            visible_text(s@, 0, false, false) == out@ + visible_text(s@, i as int, in_tag, hidden),
        decreases s@.len() - i,
    {
        let c = s[i];
        if c == '<' {
            let mut name: Vec<char> = Vec::new();
            let mut j = i + 1;
            proof {
                lemma_tag_name_end(s@, (i + 1) as int);
            }
            while j < s.len() && !(s[j] == '>' || char_is_white_space(s[j]))
                invariant
                    i + 1 <= j <= s@.len(),
                    tag_name_end(s@, (i + 1) as int) == tag_name_end(s@, j as int),
                    name@ == lower_all(s@.subrange(i + 1, j as int)),
                decreases s@.len() - j,
            {
                let lc = to_ascii_lower(s[j]);
                name.push(lc);
                proof {
                    assert(lower_all(s@.subrange(i + 1, j + 1)) =~= lower_all(s@.subrange(i + 1, j as int)).push(lc));
                }
                j = j + 1;
            }
            if name_is(&name, &script) || name_is(&name, &style) {
                hidden = true;
            } else if name_is(&name, &end_script) || name_is(&name, &end_style) {
                hidden = false;
            }
            in_tag = true;
            i = j;
        } else if c == '>' {
            in_tag = false;
            i = i + 1;
        } else {
            if !in_tag && !hidden {
                out.push(c);
                proof {
                    assert(out@ + visible_text(s@, (i + 1) as int, in_tag, hidden) =~= out@.drop_last() + (
                    seq![c] + visible_text(s@, (i + 1) as int, in_tag, hidden)));
                }
            }
            i = i + 1;
        }
    }
    proof {
        assert(out@ + Seq::<char>::empty() =~= out@);
    }
    out
}

/// Lightweight HTML cleaner: keeps the text outside markup, drops script and
/// style content, trims every line and drops empty ones.
pub fn clean_html(html: &str) -> (r: String)
    ensures
        r@ == cleaned_html(html@),
{
    let page = chars_of(html);
    let text = strip_markup(&page);
    let mut lines: Vec<Vec<char>> = Vec::new();
    let mut i: usize = 0;
    loop
        invariant_except_break
            i <= text@.len(),
            kept_lines(text@, 0) == lines@.map_values(|l: Vec<char>| l@) + kept_lines(text@, i as int),
        ensures
            kept_lines(text@, 0) == lines@.map_values(|l: Vec<char>| l@),
        decreases text@.len() - i,
    {
        let e = scan_char_from(&text, '\n', i);
        proof {
            lemma_scan_char(text@, '\n', i as int);
        }
        let t = trim_chars(&slice_chars(&text, i, e));
        let ghost before = lines@.map_values(|l: Vec<char>| l@);
        let ghost rest = if e >= text@.len() {
            Seq::<Seq<char>>::empty()
        } else {
            kept_lines(text@, e + 1)
        };
        assert(kept_lines(text@, i as int) == (if t@.len() > 0 {
            seq![t@] + rest
        } else {
            rest
        }));
        if t.len() > 0 {
            lines.push(t);
            proof {
                assert(lines@.map_values(|l: Vec<char>| l@) =~= before.push(t@));
                assert(before + (seq![t@] + rest) =~= before.push(t@) + rest);
            }
        }
        if e >= text.len() {
            proof {
                assert(lines@.map_values(|l: Vec<char>| l@) + Seq::<Seq<char>>::empty() =~= lines@.map_values(|l: Vec<char>| l@));
            }
            break;
        }
        i = e + 1;
    }
    let ghost all = lines@.map_values(|l: Vec<char>| l@);
    let mut out: Vec<char> = Vec::new();
    let mut k: usize = 0;
    while k < lines.len()
        invariant
            k <= lines@.len(),
            all == lines@.map_values(|l: Vec<char>| l@),
            out@ == join_lines(all.subrange(0, k as int)),
        decreases lines@.len() - k,
    {
        let ghost prev = all.subrange(0, k as int);
        assert(all.subrange(0, k + 1).drop_last() =~= prev);
        if k > 0 {
            out.push('\n');
        }
        let mut m: usize = 0;
        let line = &lines[k];
        let ghost base = out@;
        while m < line.len()
            invariant
                m <= line@.len(),
                out@ == base + line@.subrange(0, m as int),
            decreases line@.len() - m,
        {
            out.push(line[m]);
            m = m + 1;
        }
        proof {
            assert(line@.subrange(0, line@.len() as int) =~= line@);
            if k == 0 {
                assert(base =~= Seq::<char>::empty());
                assert(out@ =~= line@);
            } else {
                assert(base =~= join_lines(prev) + seq!['\n']);
            }
        }
        k = k + 1;
    }
    proof {
        assert(all.subrange(0, lines@.len() as int) =~= all);
    }
    string_from_chars(&out)
}

// ---------------------------------------------------------------------------
// std_fs: paths inside the mounted workspace
// ---------------------------------------------------------------------------

/// Where the tenant's workspace is mounted inside the sandbox.
pub open spec fn workspace_root() -> Seq<char> {
    "/workspace"@
}

pub open spec fn is_separator(c: char) -> bool {
    c == '/' || c == '\\'
}

/// Count of leading separators (`/` or `\`) from position `i` on.
pub open spec fn leading_separators_end(s: Seq<char>, i: int) -> int
    decreases s.len() - i,
{
    if i < 0 || i >= s.len() {
        s.len() as int
    } else if is_separator(s[i]) {
        leading_separators_end(s, i + 1)
    } else {
        i
    }
}

/// A path the caller gave, without its leading separators.
pub open spec fn without_leading_separators(rel: Seq<char>) -> Seq<char> {
    rel.subrange(leading_separators_end(rel, 0), rel.len() as int)
}

/// The sandbox path for a workspace-relative path: leading separators are
/// dropped and the rest is put under `/workspace`.
pub open spec fn sandbox_path(rel: Seq<char>) -> Seq<char> {
    workspace_root() + seq!['/'] + without_leading_separators(rel)
}

/// The sandbox path of a path, or the refusal's text.
pub open spec fn sandbox_or(rel: Seq<char>) -> Result<Seq<char>, Seq<char>> {
    if stays_inside(without_leading_separators(rel)) {
        Ok(sandbox_path(rel))
    } else {
        Err("Acceso fuera del workspace denegado: "@ + rel)
    }
}

/// What `safe_path` answers: the sandbox path when the path, once its
/// leading separators are dropped, does not climb out of the workspace
/// through `..`; the refusal otherwise.
pub open spec fn sandbox_answer(rel: Seq<char>, r: Result<String, String>) -> bool {
    if stays_inside(without_leading_separators(rel)) {
        r matches Ok(p) && p@ == sandbox_path(rel)
    } else {
        r matches Err(e) && e@ == "Acceso fuera del workspace denegado: "@ + rel
    }
}

proof fn lemma_leading_separators_end(s: Seq<char>, i: int)
    requires
        0 <= i <= s.len(),
    ensures
        i <= leading_separators_end(s, i) <= s.len(),
    decreases s.len() - i,
{
    if i < s.len() && is_separator(s[i]) {
        lemma_leading_separators_end(s, i + 1);
    }
}

/// Builds a path inside `/workspace` for a path the caller gave; a path
/// whose `..` components would lead out of the workspace is refused.
pub fn safe_path(rel_path: &str) -> (r: Result<String, String>)
    ensures
        sandbox_answer(rel_path@, r),
{
    let rel = chars_of(rel_path);
    let mut a: usize = 0;
    proof {
        lemma_leading_separators_end(rel@, 0);
    }
    while a < rel.len() && (rel[a] == '/' || rel[a] == '\\')
        invariant
            a <= rel@.len(),
            leading_separators_end(rel@, 0) == leading_separators_end(rel@, a as int),
        decreases rel@.len() - a,
    {
        a = a + 1;
    }
    let rest = string_from_chars(&slice_chars(&rel, a, rel.len()));
    assert(rest@ =~= without_leading_separators(rel_path@));
    if !is_safe_path("", rest.as_str()) {
        return Err(concat2("Acceso fuera del workspace denegado: ", rel_path));
    }
    proof {
        reveal_strlit("/workspace/");
        reveal_strlit("/workspace");
        assert("/workspace/"@ =~= workspace_root() + seq!['/']);
    }
    Ok(concat2("/workspace/", rest.as_str()))
}

// ---------------------------------------------------------------------------
// Plugin requests and responses
// ---------------------------------------------------------------------------

/// A request that a plugin reads from its input.
pub struct PluginRequest {
    pub action: String,
    pub params: Json,
}

/// The answer a plugin writes to its output.
pub struct PluginResponse {
    pub status: String,
    pub data: Option<Json>,
    pub error: Option<String>,
}

/// A request read from JSON, as `#[derive(Deserialize)]` reads
/// `{ action: String, #[serde(default)] params: Value }`: an object with a
/// string `action` (and `params`, `null` when absent), or an array holding
/// the action and, optionally, the parameters.
pub open spec fn plugin_request_of(j: Json) -> Option<(Seq<char>, Json)> {
    match j {
        Json::Object(ms) => match member(ms@, "action"@) {
            Some(Json::Str(a)) => Some(
                (
                    a@,
                    match member(ms@, "params"@) {
                        Some(p) => p,
                        None => Json::Null,
                    },
                ),
            ),
            _ => None,
        },
        Json::Array(items) => if (items@.len() == 1 || items@.len() == 2) && items@[0] is Str {
            Some(
                (
                    items@[0]->Str_0@,
                    if items@.len() == 2 {
                        items@[1]
                    } else {
                        Json::Null
                    },
                ),
            )
        } else {
            None
        },
        _ => None,
    }
}

fn member_index(ms: &Vec<(String, Json)>, key: &str) -> (r: Option<usize>)
    ensures
        r matches Some(i) ==> i < ms@.len() && member(ms@, key@) == Some(ms@[i as int].1) && ms@[i as int].0@
            == key@,
        r is None ==> member(ms@, key@) is None,
{
    let mut i: usize = 0;
    assert(ms@ =~= ms@.subrange(0, ms@.len() as int));
    while i < ms.len()
        invariant
            i <= ms@.len(),
            member(ms@, key@) == member(ms@.subrange(i as int, ms@.len() as int), key@),
        decreases ms@.len() - i,
    {
        let ghost rest = ms@.subrange(i as int, ms@.len() as int);
        assert(rest.drop_first() =~= ms@.subrange(i + 1, ms@.len() as int));
        assert(rest[0] == ms@[i as int]);
        if str_eq(ms[i].0.as_str(), key) {
            return Some(i);
        }
        i = i + 1;
    }
    None
}

impl PluginRequest {
    /// Reads a request from a JSON value.
    pub fn from_json(j: Json) -> (r: Option<PluginRequest>)
        ensures
            r matches Some(req) ==> plugin_request_of(j) == Some((req.action@, req.params)),
            r is None <==> plugin_request_of(j) is None,
    {
        match j {
            Json::Object(members) => {
                let ghost ms = members@;
                let ai = member_index(&members, "action");
                let pi = member_index(&members, "params");
                let ai = match ai {
                    Some(ai) => ai,
                    None => {
                        return None;
                    },
                };
                proof {
                    reveal_strlit("action");
                    reveal_strlit("params");
                    if pi is Some {
                        assert("action"@[0] != "params"@[0]);
                        assert(ms[ai as int].0@ != ms[pi->0 as int].0@);
                    }
                }
                let mut members = members;
                let (a_val, p_val) = match pi {
                    Some(pi) => if pi > ai {
                        let p = members.remove(pi).1;
                        let a = members.remove(ai).1;
                        (a, Some(p))
                    } else {
                        let a = members.remove(ai).1;
                        let p = members.remove(pi).1;
                        (a, Some(p))
                    },
                    None => (members.remove(ai).1, None),
                };
                match a_val {
                    Json::Str(a) => Some(PluginRequest {
                        action: a,
                        params: match p_val {
                            Some(p) => p,
                            None => Json::Null,
                        },
                    }),
                    _ => None,
                }
            },
            Json::Array(items) => {
                if !(items.len() == 1 || items.len() == 2) {
                    return None;
                }
                let mut items = items;
                let second = if items.len() == 2 {
                    items.pop()
                } else {
                    None
                };
                let first = items.pop();
                match first {
                    Some(Json::Str(a)) => Some(PluginRequest {
                        action: a,
                        params: match second {
                            Some(p) => p,
                            None => Json::Null,
                        },
                    }),
                    _ => None,
                }
            },
            _ => None,
        }
    }
}

pub open spec fn unknown_action_message(action: Seq<char>) -> Seq<char> {
    "Acción desconocida: "@ + action
}

/// The answer to an action that the plugin does not offer.
pub fn unknown_action(action: &str) -> (r: PluginResponse)
    ensures
        r.status@ == "error"@,
        r.data is None,
        r.error matches Some(e) && e@ == unknown_action_message(action@),
{
    PluginResponse {
        status: owned("error"),
        data: None,
        error: Some(concat2("Acción desconocida: ", action)),
    }
}

/// What `std_fs` does for a request.
pub enum FsRoute {
    /// List the directory at this sandbox path, asked for as `relative`.
    ListDir { path: String, relative: String },
    /// Read the file at this sandbox path, asked for as `relative`.
    ReadFile { path: String, relative: String },
    /// Answer at once, without touching the file system.
    Respond(PluginResponse),
}

/// The opening of the message for input that is not JSON; serde's own
/// message follows it as the cause.
pub open spec fn deserialize_failure() -> Seq<char> {
    "Error al deserializar el JSON de entrada.\n\nCaused by:\n    "@
}

/// `std_fs`: decides what a request asks for. Input that is not a request
/// fails with the plugin's deserialisation message.
pub fn route_fs_request(input: &str) -> (r: Result<FsRoute, String>)
    ensures
        ({
            match json_document(input@) {
                Some(j) => match plugin_request_of(j) {
                    Some((action, params)) => {
                        let path = as_text(index_key(params, "path"@));
                        if action == "list_dir"@ {
                            let rel = match path { Some(t) => t, None => "."@ };
                            match sandbox_or(rel) {
                                Ok(p) => r matches Ok(FsRoute::ListDir { path: q, relative: w }) && q@ == p && w@ == rel,
                                Err(e) => r matches Err(m) && m@ == e,
                            }
                        } else if action == "read_file"@ {
                            match path {
                                Some(t) => match sandbox_or(t) {
                                    Ok(p) => r matches Ok(FsRoute::ReadFile { path: q, relative: w }) && q@ == p && w@ == t,
                                    Err(e) => r matches Err(m) && m@ == e,
                                },
                                None => r matches Err(e) && e@ == "Se requiere la clave 'path' para leer un archivo"@,
                            }
                        } else {
                            r matches Ok(FsRoute::Respond(resp)) && resp.status@ == "error"@ && resp.data is None
                                && (resp.error matches Some(e) && e@ == unknown_action_message(action))
                        }
                    },
                    None => r matches Err(e) && e@ == "Error al deserializar el JSON de entrada."@,
                },
                None => r matches Err(e) && e@.len() >= deserialize_failure().len() && e@.subrange(
                    0,
                    deserialize_failure().len() as int,
                ) == deserialize_failure(),
            }
        }),
{
    let j = match parse_json(input) {
        Ok(j) => j,
        Err(e) => {
            let m = concat2("Error al deserializar el JSON de entrada.\n\nCaused by:\n    ", e.as_str());
            proof {
                reveal_strlit("Error al deserializar el JSON de entrada.\n\nCaused by:\n    ");
                assert(m@.subrange(0, deserialize_failure().len() as int) =~= deserialize_failure());
            }
            return Err(m);
        },
    };
    let req = match PluginRequest::from_json(j) {
        Some(req) => req,
        None => {
            return Err(owned("Error al deserializar el JSON de entrada."));
        },
    };
    let path = match req.params.get("path") {
        Some(v) => v.as_text(),
        None => None,
    };
    if str_eq(req.action.as_str(), "list_dir") {
        let rel = match path {
            Some(t) => t,
            None => owned("."),
        };
        match safe_path(rel.as_str()) {
            Ok(p) => Ok(FsRoute::ListDir { path: p, relative: rel }),
            Err(e) => Err(e),
        }
    } else if str_eq(req.action.as_str(), "read_file") {
        match path {
            Some(t) => match safe_path(t.as_str()) {
                Ok(p) => Ok(FsRoute::ReadFile { path: p, relative: t }),
                Err(e) => Err(e),
            },
            None => Err(owned("Se requiere la clave 'path' para leer un archivo")),
        }
    } else {
        Ok(FsRoute::Respond(unknown_action(req.action.as_str())))
    }
}

/// The message of a directory that could not be listed, named as it was
/// asked for.
pub fn dir_read_failure(relative: &str) -> (m: String)
    ensures
        m@ == "No se pudo leer el directorio: "@ + relative@,
{
    concat2("No se pudo leer el directorio: ", relative)
}

/// The message of a file that could not be read, named as it was asked for.
pub fn file_read_failure(relative: &str) -> (m: String)
    ensures
        m@ == "No se pudo leer el archivo: "@ + relative@,
{
    concat2("No se pudo leer el archivo: ", relative)
}

// ---------------------------------------------------------------------------
// std_sys
// ---------------------------------------------------------------------------

/// Only decimal digits.
pub open spec fn all_digits(s: Seq<char>) -> bool {
    forall|i: int| 0 <= i < s.len() ==> '0' <= #[trigger] s[i] <= '9'
}

/// The year as RFC 3339 writes it: four digits, or a sign and at least four
/// digits for a year outside 0 to 9999.
pub open spec fn rfc3339_year(y: Seq<char>) -> bool {
    ||| y.len() == 4 && all_digits(y)
    ||| y.len() >= 5 && (y[0] == '+' || y[0] == '-') && all_digits(y.drop_first())
}

/// `-MM-DDThh:mm:ss`, two digits each.
pub open spec fn rfc3339_clock(c: Seq<char>) -> bool {
    &&& c.len() == 15
    &&& c[0] == '-' && c[3] == '-' && c[6] == 'T' && c[9] == ':' && c[12] == ':'
    &&& all_digits(c.subrange(1, 3)) && all_digits(c.subrange(4, 6)) && all_digits(c.subrange(7, 9))
    &&& all_digits(c.subrange(10, 12)) && all_digits(c.subrange(13, 15))
}

/// An instant in UTC as RFC 3339 text with `Z` for the offset: the date,
/// `T`, the time to the second, a fraction of 3, 6 or 9 digits when the
/// nanoseconds are not zero, and `Z`.
pub open spec fn rfc3339_utc(t: Seq<char>) -> bool {
    exists|f: int|
        #![trigger t.subrange(0, t.len() - 1 - f)]
        {
            &&& f == 0 || f == 4 || f == 7 || f == 10
            &&& t.len() >= f + 20
            &&& t.last() == 'Z'
            &&& f > 0 ==> t[t.len() - 1 - f] == '.' && all_digits(t.subrange(t.len() - f, t.len() - 1))
            &&& rfc3339_clock(t.subrange(t.len() - 16 - f, t.len() - 1 - f))
            &&& rfc3339_year(t.subrange(0, t.len() - 16 - f))
        }
}

/// `chrono::Utc::now().to_rfc3339_opts(SecondsFormat::AutoSi, true)`: the
/// current instant as RFC 3339 text, written by chrono's `write_rfc3339`
/// with `Z` for the UTC offset. Which instant is read is left open.
#[verifier::external_body]
fn utc_now_rfc3339() -> (s: String)
    ensures
        rfc3339_utc(s@),
{
    chrono::Utc::now().to_rfc3339_opts(chrono::SecondsFormat::AutoSi, true)
}

/// `std_sys`: answers a request. `get_time` reports the current UTC time.
pub fn process_sys_request(request: &PluginRequest) -> (r: PluginResponse)
    ensures
        request.action@ == "get_time"@ ==> r.status@ == "success"@ && r.error is None && (r.data matches Some(
            Json::Str(t),
        ) && rfc3339_utc(t@)),
        request.action@ != "get_time"@ ==> r.status@ == "error"@ && r.data is None && (r.error matches Some(
            e,
        ) && e@ == unknown_action_message(request.action@)),
{
    if str_eq(request.action.as_str(), "get_time") {
        let now = utc_now_rfc3339();
        PluginResponse { status: owned("success"), data: Some(Json::Str(now)), error: None }
    } else {
        unknown_action(request.action.as_str())
    }
}


/// A character that opens or closes markup.
pub open spec fn is_angle(c: char) -> bool {
    c == '<' || c == '>'
}

proof fn lemma_visible_text_has_no_angle(s: Seq<char>, i: int, in_tag: bool, hidden: bool)
    ensures
        forall|k: int|
            0 <= k < visible_text(s, i, in_tag, hidden).len() ==> !is_angle(
                #[trigger] visible_text(s, i, in_tag, hidden)[k],
            ),
    decreases s.len() - i,
{
    if 0 <= i < s.len() {
        if s[i] == '<' {
            lemma_tag_name_end(s, i + 1);
            let j = tag_name_end(s, i + 1);
            let name = lower_all(s.subrange(i + 1, j));
            let h = hidden_after(hidden, name);
            lemma_visible_text_has_no_angle(s, j, true, h);
            assert(visible_text(s, i, in_tag, hidden) == visible_text(s, j, true, h));
        } else if s[i] == '>' {
            lemma_visible_text_has_no_angle(s, i + 1, false, hidden);
            assert(visible_text(s, i, in_tag, hidden) == visible_text(s, i + 1, false, hidden));
        } else {
            lemma_visible_text_has_no_angle(s, i + 1, in_tag, hidden);
            if !in_tag && !hidden {
                let rest = visible_text(s, i + 1, in_tag, hidden);
                assert forall|k: int|
                    0 <= k < visible_text(s, i, in_tag, hidden).len() implies !is_angle(
                    #[trigger] visible_text(s, i, in_tag, hidden)[k],
                ) by {
                    if k > 0 {
                        assert(visible_text(s, i, in_tag, hidden)[k] == rest[k - 1]);
                    }
                }
            } else {
                assert(visible_text(s, i, in_tag, hidden) == visible_text(s, i + 1, in_tag, hidden));
            }
        }
    }
}

/// A line as `clean_html` keeps it: not empty, and without line breaks or
/// markup characters.
pub open spec fn is_clean_line(l: Seq<char>) -> bool {
    &&& l.len() > 0
    &&& forall|k: int| 0 <= k < l.len() ==> #[trigger] l[k] != '\n' && !is_angle(l[k])
}

proof fn lemma_kept_lines_clean(s: Seq<char>, i: int)
    requires
        forall|k: int| 0 <= k < s.len() ==> !is_angle(#[trigger] s[k]),
    ensures
        forall|j: int| 0 <= j < kept_lines(s, i).len() ==> is_clean_line(#[trigger] kept_lines(s, i)[j]),
    decreases s.len() - i,
{
    if 0 <= i <= s.len() {
        lemma_scan_char(s, '\n', i);
        let e = scan_char(s, '\n', i);
        let piece = s.subrange(i, e);
        let p = |c: char| c != '\n' && !is_angle(c);
        assert forall|k: int| 0 <= k < piece.len() implies p(#[trigger] piece[k]) by {
            assert(piece[k] == s[i + k]);
        }
        lemma_trimmed_keeps(piece, p);
        let t = trimmed(piece);
        assert forall|k: int| 0 <= k < t.len() implies #[trigger] t[k] != '\n' && !is_angle(t[k]) by {
            assert(p(t[k]));
        }
        if e < s.len() {
            lemma_kept_lines_clean(s, e + 1);
        }
        let rest = if e >= s.len() {
            Seq::<Seq<char>>::empty()
        } else {
            kept_lines(s, e + 1)
        };
        assert forall|j: int| 0 <= j < kept_lines(s, i).len() implies is_clean_line(
            #[trigger] kept_lines(s, i)[j],
        ) by {
            if t.len() > 0 {
                if j > 0 {
                    assert(kept_lines(s, i)[j] == rest[j - 1]);
                }
            } else {
                assert(kept_lines(s, i)[j] == rest[j]);
            }
        }
    }
}

proof fn lemma_join_clean_lines(lines: Seq<Seq<char>>)
    requires
        forall|j: int| 0 <= j < lines.len() ==> is_clean_line(#[trigger] lines[j]),
    ensures
        lines.len() > 0 ==> join_lines(lines).len() > 0,
        forall|k: int| 0 <= k < join_lines(lines).len() ==> !is_angle(#[trigger] join_lines(lines)[k]),
        forall|k: int|
            0 <= k < join_lines(lines).len() && #[trigger] join_lines(lines)[k] == '\n' ==> 0 < k
                < join_lines(lines).len() - 1 && join_lines(lines)[k + 1] != '\n',
    decreases lines.len(),
{
    if lines.len() == 1 {
        assert(is_clean_line(lines[0]));
    } else if lines.len() > 1 {
        let d = lines.drop_last();
        assert forall|j: int| 0 <= j < d.len() implies is_clean_line(#[trigger] d[j]) by {
            assert(d[j] == lines[j]);
        }
        lemma_join_clean_lines(d);
        let a = join_lines(d);
        let l = lines.last();
        assert(is_clean_line(lines[lines.len() - 1]));
        let out = join_lines(lines);
        assert(out == a + seq!['\n'] + l);
        assert forall|k: int| 0 <= k < out.len() implies !is_angle(#[trigger] out[k]) by {
            if k < a.len() {
                assert(out[k] == a[k]);
            } else if k > a.len() {
                assert(out[k] == l[k - a.len() - 1]);
            }
        }
        assert forall|k: int| 0 <= k < out.len() && #[trigger] out[k] == '\n' implies 0 < k < out.len()
            - 1 && out[k + 1] != '\n' by {
            if k < a.len() {
                assert(out[k] == a[k]);
                assert(out[k + 1] == a[k + 1]);
            } else if k == a.len() {
                assert(out[k + 1] == l[0]);
            } else {
                assert(out[k] == l[k - a.len() - 1]);
            }
        }
    }
}

/// `clean_html` leaves no markup character and no empty line: the text
/// never holds `<` or `>`, never starts or ends with a line break, and never
/// holds two line breaks in a row.
pub proof fn law_clean_html_leaves_plain_lines(html: Seq<char>)
    ensures
        forall|k: int| 0 <= k < cleaned_html(html).len() ==> !is_angle(#[trigger] cleaned_html(html)[k]),
        forall|k: int|
            0 <= k < cleaned_html(html).len() && #[trigger] cleaned_html(html)[k] == '\n' ==> 0 < k
                < cleaned_html(html).len() - 1 && cleaned_html(html)[k + 1] != '\n',
{
    let v = visible_text(html, 0, false, false);
    lemma_visible_text_has_no_angle(html, 0, false, false);
    lemma_kept_lines_clean(v, 0);
    lemma_join_clean_lines(kept_lines(v, 0));
}

} // verus!
