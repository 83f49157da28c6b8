//! Virtual Context Manager: builds the attention window that a model gets,
//! from the process instruction (L1), workspace files (L2) and long-term
//! memory (L3), within a token budget.
//!
//! Reading files and searching memory is I/O; the decisions between those
//! reads are made here, one step at a time, by `ContextAssembly`.
use vstd::prelude::*;
use crate::paths::{join_path, stays_inside, tenant_workspace, joined, is_safe_path, tenant_workspace_path};
use crate::text::{occurs_at, byte_len, chars_of, chars_start_with, concat2, decimal, decimal_string, owned, slice_chars, string_from_chars};

verus! {

/// Failures of context assembly.
#[derive(Debug, Clone, PartialEq)]
pub enum VCMError {
    PathTraversalDetected(String),
    ContextOverflow(usize),
    FileNotFound(String),
    IOError(String),
    FileTooLarge(String, u64),
}

impl VCMError {
    /// The message of the error, as the kernel reports it.
    pub fn message(&self) -> (m: String)
        ensures
            m@ == match *self {
                VCMError::PathTraversalDetected(p) => "Path Traversal Detected: attempt to access "@
                    + p@ + " outside sandbox"@,
                VCMError::ContextOverflow(n) => "Context Overflow: assembled context exceeds limit of "@
                    + decimal(n as nat) + " tokens"@,
                VCMError::FileNotFound(p) => "File Not Found: "@ + p@,
                VCMError::IOError(e) => "IO Error: "@ + e@,
                VCMError::FileTooLarge(p, n) => "File too large: "@ + p@ + " exceeds "@ + decimal(
                    n as nat,
                ) + " bytes"@,
            },
    {
        match self {
            VCMError::PathTraversalDetected(p) => {
                let mut m = String::from_str("Path Traversal Detected: attempt to access ");
                m.append(p.as_str());
                m.append(" outside sandbox");
                m
            },
            VCMError::ContextOverflow(n) => {
                let mut m = String::from_str("Context Overflow: assembled context exceeds limit of ");
                let d = decimal_string(*n as u64);
                m.append(d.as_str());
                m.append(" tokens");
                m
            },
            VCMError::FileNotFound(p) => concat2("File Not Found: ", p.as_str()),
            VCMError::IOError(e) => concat2("IO Error: ", e.as_str()),
            VCMError::FileTooLarge(p, n) => {
                let mut m = String::from_str("File too large: ");
                m.append(p.as_str());
                m.append(" exceeds ");
                let d = decimal_string(*n);
                m.append(d.as_str());
                m.append(" bytes");
                m
            },
        }
    }
}

pub open spec fn system_instructions() -> Seq<char> {
    "### SYSTEM: Aegis Neural Kernel VCM ###\nYou are an auxiliary cognitive module of the Aegis Neural Kernel. Use the provided context to fulfill the instruction accurately."@
}

pub const SYSTEM_INSTRUCTIONS: &'static str = "### SYSTEM: Aegis Neural Kernel VCM ###\nYou are an auxiliary cognitive module of the Aegis Neural Kernel. Use the provided context to fulfill the instruction accurately.";

/// Files above this size (2 MiB) are never put into the window.
pub const MAX_FILE_SIZE_BYTES: u64 = 2097152;

/// Token estimate of a text: four bytes count as one token.
pub open spec fn tokens_of(text: Seq<char>) -> int {
    byte_len(text) as int / 4
}

/// Heuristic: four bytes of text make about one token.
pub fn estimate_tokens(text: &str) -> (n: usize)
    ensures
        n == tokens_of(text@),
{
    text.len() / 4
}

/// Tokens that the system instructions, the instruction heading, the
/// instruction itself and the separators take.
pub open spec fn base_tokens(l1: Seq<char>) -> int {
    tokens_of(system_instructions()) + tokens_of("## INSTRUCTION\n"@) + tokens_of(l1) + 4
}

/// The text every window starts with.
pub open spec fn context_header() -> Seq<char> {
    system_instructions() + "\n\n"@
}

pub open spec fn attached_heading() -> Seq<char> {
    "## ATTACHED CONTEXT\n"@
}

pub open spec fn memory_heading() -> Seq<char> {
    "\n## L3 SEMANTIC MEMORY\n"@
}

/// The state of a window under construction.
pub struct ContextModel {
    pub text: Seq<char>,
    pub tokens: int,
    pub limit: int,
    pub has_l2: bool,
    pub l3_added: bool,
    pub l1: Seq<char>,
}

/// The text of the window with the attached-context heading, once.
pub open spec fn with_attached_heading(m: ContextModel) -> Seq<char> {
    if m.has_l2 {
        m.text
    } else {
        m.text + attached_heading()
    }
}

/// A window under construction.
pub struct ContextAssembly {
    text: String,
    tokens: usize,
    limit: usize,
    has_l2: bool,
    l3_added: bool,
    l1: String,
    log: Ghost<Seq<AssemblyStep>>,
}

/// Leave to attach a file: given by `admit_file` for the window as it was
/// then, to a file of the reference and size it was asked about.
pub struct Admission {
    ref_uri: Ghost<Seq<char>>,
    size: Ghost<u64>,
    at: Ghost<ContextModel>,
}

impl Admission {
    #[verifier::type_invariant]
    spec fn fits(self) -> bool {
        file_fits(self.at@, self.size@)
    }
}

impl View for ContextAssembly {
    type V = ContextModel;

    closed spec fn view(&self) -> ContextModel {
        ContextModel {
            text: self.text@,
            tokens: self.tokens as int,
            limit: self.limit as int,
            has_l2: self.has_l2,
            l3_added: self.l3_added,
            l1: self.l1@,
        }
    }
}

/// The Virtual Context Manager.
pub struct VirtualContextManager;

impl VirtualContextManager {
    pub fn new() -> VirtualContextManager {
        VirtualContextManager
    }

    /// Starts a window for instruction `l1` within `token_limit` tokens.
    /// Fails when the system instructions and the instruction alone exceed it.
    pub fn begin_context(&self, l1: &str, token_limit: usize) -> (r: Result<ContextAssembly, VCMError>)
        ensures
            base_tokens(l1@) > token_limit <==> r is Err,
            r matches Err(e) ==> e == VCMError::ContextOverflow(token_limit),
            r matches Ok(a) ==> {
                &&& a@.text == context_header()
                &&& a@.tokens == base_tokens(l1@)
                &&& a@.limit == token_limit
                &&& !a@.has_l2
                &&& !a@.l3_added
                &&& a@.l1 == l1@
                &&& a.log().len() == 0
                &&& a.ran_in_order()
            },
    {
        let s = estimate_tokens(SYSTEM_INSTRUCTIONS);
        let h = estimate_tokens("## INSTRUCTION\n");
        let t = estimate_tokens(l1);
        let base = s + h + t + 4;
        if base > token_limit {
            return Err(VCMError::ContextOverflow(token_limit));
        }
        let text = concat2(SYSTEM_INSTRUCTIONS, "\n\n");
        Ok(
            ContextAssembly {
                text,
                tokens: base,
                limit: token_limit,
                has_l2: false,
                l3_added: false,
                l1: owned(l1),
                log: Ghost(Seq::empty()),
            },
        )
    }
}

/// A workspace file that a process wants in its window.
pub struct L2File {
    /// The path inside the workspace, as the reference gives it.
    pub path_part: String,
    /// Where the file is on disk.
    pub full_path: String,
}

pub open spec fn file_scheme() -> Seq<char> {
    "file://"@
}

/// Resolves an L2 reference of a tenant. References that are not `file://`
/// URIs are skipped (`Ok(None)`); a path that would leave the workspace is
/// refused.
pub fn resolve_l2_reference(tenant_id: &str, ref_uri: &str) -> (r: Result<Option<L2File>, VCMError>)
    ensures
        !(ref_uri@.len() >= 7 && ref_uri@.subrange(0, 7) == file_scheme()) ==> r matches Ok(None),
        ref_uri@.len() >= 7 && ref_uri@.subrange(0, 7) == file_scheme() && !stays_inside(
            ref_uri@.subrange(7, ref_uri@.len() as int),
        ) ==> r is Err && r->Err_0 is PathTraversalDetected
            && r->Err_0->PathTraversalDetected_0@ == ref_uri@.subrange(7, ref_uri@.len() as int),
        ref_uri@.len() >= 7 && ref_uri@.subrange(0, 7) == file_scheme() && stays_inside(
            ref_uri@.subrange(7, ref_uri@.len() as int),
        ) ==> r is Ok && r->Ok_0 is Some
            && r->Ok_0->Some_0.path_part@ == ref_uri@.subrange(7, ref_uri@.len() as int)
            && r->Ok_0->Some_0.full_path@ == joined(
            tenant_workspace(tenant_id@),
            ref_uri@.subrange(7, ref_uri@.len() as int),
        ),
{
    let u = chars_of(ref_uri);
    let scheme = chars_of("file://");
    proof {
        reveal_strlit("file://");
    }
    if !chars_start_with(&u, &scheme) {
        return Ok(None);
    }
    let path_part = string_from_chars(&slice_chars(&u, 7, u.len()));
    if !is_safe_path(tenant_id, path_part.as_str()) {
        return Err(VCMError::PathTraversalDetected(path_part));
    }
    let root = tenant_workspace_path(tenant_id);
    let full_path = join_path(root.as_str(), path_part.as_str());
    Ok(Some(L2File { path_part, full_path }))
}

/// A `file://` reference.
pub open spec fn is_file_ref(r: Seq<char>) -> bool {
    r.len() >= 7 && r.subrange(0, 7) == file_scheme()
}

/// The path that a `file://` reference names.
pub open spec fn path_of_ref(r: Seq<char>) -> Seq<char> {
    r.subrange(7, r.len() as int)
}

/// The next attached file among `refs`, from position `from` on: the
/// position and resolved file of the first `file://` reference there, or the
/// refusal of that reference when its path leaves the workspace, or `None`
/// when no `file://` reference is left. Other references are passed over.
pub fn next_l2_file(tenant_id: &str, refs: &Vec<String>, from: usize) -> (r: Result<
    Option<(usize, L2File)>,
    VCMError,
>)
    requires
        from <= refs@.len(),
    ensures
        match r {
            Ok(None) => forall|k: int| from <= k < refs@.len() ==> !is_file_ref(#[trigger] refs@[k]@),
            Ok(Some((i, f))) => {
                &&& from <= i < refs@.len()
                &&& forall|k: int| from <= k < i ==> !is_file_ref(#[trigger] refs@[k]@)
                &&& is_file_ref(refs@[i as int]@)
                &&& stays_inside(path_of_ref(refs@[i as int]@))
                &&& f.path_part@ == path_of_ref(refs@[i as int]@)
                &&& f.full_path@ == joined(tenant_workspace(tenant_id@), path_of_ref(refs@[i as int]@))
            },
            Err(e) => exists|i: int|
                {
                    &&& from <= i < refs@.len()
                    &&& forall|k: int| from <= k < i ==> !is_file_ref(#[trigger] refs@[k]@)
                    &&& is_file_ref(#[trigger] refs@[i]@)
                    &&& !stays_inside(path_of_ref(refs@[i]@))
                    &&& e matches VCMError::PathTraversalDetected(p) && p@ == path_of_ref(refs@[i]@)
                },
        },
{
    let mut i: usize = from;
    while i < refs.len()
        invariant
            from <= i <= refs@.len(),
            forall|k: int| from <= k < i ==> !is_file_ref(#[trigger] refs@[k]@),
        decreases refs@.len() - i,
    {
        match resolve_l2_reference(tenant_id, refs[i].as_str()) {
            Ok(None) => {
                i = i + 1;
            },
            Ok(Some(f)) => {
                return Ok(Some((i, f)));
            },
            Err(e) => {
                return Err(e);
            },
        }
    }
    Ok(None)
}

/// What the window does with a file of a given size.
pub open spec fn file_fits(m: ContextModel, size: u64) -> bool {
    size <= MAX_FILE_SIZE_BYTES && m.tokens + size / 4 + 50 <= m.limit
}

/// The window after a file of the given size was turned away: a note says
/// why, under the attached-context heading.
pub open spec fn after_file_refused(m: ContextModel, ref_uri: Seq<char>, size: u64) -> ContextModel {
    let reason = if size > MAX_FILE_SIZE_BYTES {
        " omitido por tamaño excesivo]\n"@
    } else {
        " omitido por falta de memoria]\n"@
    };
    ContextModel {
        text: with_attached_heading(m) + "[SYSTEM: "@ + ref_uri + reason,
        has_l2: true,
        ..m
    }
}

/// The window after a file's content was attached.
pub open spec fn after_file_added(m: ContextModel, path_part: Seq<char>, content: Seq<char>) -> ContextModel {
    ContextModel {
        text: with_attached_heading(m) + "[File: "@ + path_part + "]\n"@ + content + "\n"@,
        tokens: m.tokens + tokens_of(content) + 10,
        has_l2: true,
        ..m
    }
}

/// Tokens a memory fragment takes.
pub open spec fn fragment_tokens(text: Seq<char>) -> int {
    tokens_of(text) + 20
}

/// The window after a memory fragment was attached.
pub open spec fn after_fragment_added(m: ContextModel, id: Seq<char>, text: Seq<char>) -> ContextModel {
    ContextModel {
        text: (if m.l3_added {
            m.text
        } else {
            m.text + memory_heading()
        }) + "[Memory ID: "@ + id + "]\n"@ + text + "\n"@,
        tokens: m.tokens + fragment_tokens(text),
        l3_added: true,
        ..m
    }
}

/// The finished window.
pub open spec fn finished_text(m: ContextModel) -> Seq<char> {
    (if m.has_l2 || m.l3_added {
        m.text + "\n"@
    } else {
        m.text
    }) + "## INSTRUCTION\n"@ + m.l1 + "\n"@
}

impl Admission {
    /// The window the admission was given for.
    pub closed spec fn window(&self) -> ContextModel {
        self.at@
    }

    pub closed spec fn ref_uri(&self) -> Seq<char> {
        self.ref_uri@
    }

    pub closed spec fn size(&self) -> u64 {
        self.size@
    }
}

impl ContextAssembly {
    /// The steps taken so far, in order.
    pub closed spec fn log(&self) -> Seq<AssemblyStep> {
        self.log@
    }

    /// The window is what its steps made of the window `begin_context`
    /// opened.
    pub closed spec fn ran_in_order(&self) -> bool {
        &&& base_tokens(self@.l1) <= self@.limit
        &&& self@ == after_steps(begun(self@.l1, self@.limit), self.log@)
    }

    /// Tokens the window takes so far.
    pub fn tokens(&self) -> (n: usize)
        ensures
            n == self@.tokens,
    {
        self.tokens
    }

    fn add_attached_heading(&mut self)
        ensures
            final(self)@ == (ContextModel { text: with_attached_heading(old(self)@), has_l2: true, ..old(self)@ }),
    {
        if !self.has_l2 {
            self.text.append("## ATTACHED CONTEXT\n");
            self.has_l2 = true;
        }
    }

    fn append_text(&mut self, s: &str)
        ensures
            final(self)@ == (ContextModel { text: old(self)@.text + s@, ..old(self)@ }),
    {
        self.text.append(s);
    }

    /// Decides whether a file of `size` bytes, referred to as `ref_uri`, is
    /// read into the window: when it is, the leave to attach it. A file that
    /// is too large, or that would not fit in the remaining budget, is noted
    /// as omitted instead.
    pub fn admit_file(&mut self, ref_uri: &str, size: u64) -> (r: Option<Admission>)
        ensures
            r is Some == file_fits(old(self)@, size),
            r matches Some(a) ==> final(self)@ == old(self)@ && final(self).log() == old(self).log()
                && a.window() == old(self)@ && a.ref_uri() == ref_uri@ && a.size() == size,
            r is None ==> final(self)@ == after_file_refused(old(self)@, ref_uri@, size) && final(self).log()
                == old(self).log().push(
                AssemblyStep::File {
                    ref_uri: ref_uri@,
                    path_part: Seq::empty(),
                    size,
                    content: Seq::empty(),
                },
            ),
            old(self).ran_in_order() ==> final(self).ran_in_order(),
    {
        let ghost before = self@;
        let ghost step = AssemblyStep::File {
            ref_uri: ref_uri@,
            path_part: Seq::empty(),
            size,
            content: Seq::empty(),
        };
        let ghost log = self.log@.push(step);
        if size > MAX_FILE_SIZE_BYTES {
            self.add_attached_heading();
            self.append_text("[SYSTEM: ");
            self.append_text(ref_uri);
            self.append_text(" omitido por tamaño excesivo]\n");
            self.log = Ghost(log);
            proof {
                assert(log.drop_last() =~= old(self).log@);
            }
            return None;
        }
        let estimated = (size / 4) as usize + 50;
        if estimated > self.limit || self.tokens > self.limit - estimated {
            self.add_attached_heading();
            self.append_text("[SYSTEM: ");
            self.append_text(ref_uri);
            self.append_text(" omitido por falta de memoria]\n");
            self.log = Ghost(log);
            proof {
                assert(log.drop_last() =~= old(self).log@);
            }
            return None;
        }
        Some(Admission { ref_uri: Ghost(ref_uri@), size: Ghost(size), at: Ghost(before) })
    }

    /// Attaches the content of an admitted file. When nothing changed in
    /// the window since the admission, the attachment is the step of that
    /// file; otherwise it stands as an attachment without admission.
    pub fn add_file(&mut self, admission: Admission, path_part: &str, content: &str)
        requires
            old(self)@.tokens + tokens_of(content@) + 10 <= usize::MAX,
        ensures
            final(self)@ == after_file_added(old(self)@, path_part@, content@),
            final(self)@.tokens == old(self)@.tokens + content.len() / 4 + 10,
            admission.window() == old(self)@ ==> final(self).log() == old(self).log().push(
                AssemblyStep::File {
                    ref_uri: admission.ref_uri(),
                    path_part: path_part@,
                    size: admission.size(),
                    content: content@,
                },
            ),
            admission.window() != old(self)@ ==> final(self).log() == old(self).log().push(
                AssemblyStep::Attached { path_part: path_part@, content: content@ },
            ),
            old(self).ran_in_order() ==> final(self).ran_in_order(),
    {
        proof {
            use_type_invariant(&admission);
        }
        let ghost step = if admission.at@ == self@ {
            AssemblyStep::File {
                ref_uri: admission.ref_uri@,
                path_part: path_part@,
                size: admission.size@,
                content: content@,
            }
        } else {
            AssemblyStep::Attached { path_part: path_part@, content: content@ }
        };
        let ghost log = self.log@.push(step);
        self.add_attached_heading();
        self.append_text("[File: ");
        self.append_text(path_part);
        self.append_text("]\n");
        self.append_text(content);
        self.append_text("\n");
        self.tokens = self.tokens + estimate_tokens(content) + 10;
        self.log = Ghost(log);
        proof {
            assert(log.drop_last() =~= old(self).log@);
        }
    }

    /// Whether long-term memory is consulted: only with budget left and
    /// queries to run.
    pub fn wants_memory(&self, query_count: usize) -> (b: bool)
        ensures
            b == (self@.tokens < self@.limit && query_count > 0),
    {
        self.tokens < self.limit && query_count > 0
    }

    /// Offers a memory fragment. It is attached when it fits in the budget;
    /// `false` means it did not fit and no later fragment of the same search
    /// is offered.
    pub fn add_fragment(&mut self, id: &str, text: &str) -> (added: bool)
        ensures
            added == (old(self)@.tokens + fragment_tokens(text@) <= old(self)@.limit),
            added ==> final(self)@ == after_fragment_added(old(self)@, id@, text@),
            !added ==> final(self)@ == old(self)@,
            final(self).log() == old(self).log().push(AssemblyStep::Fragment { id: id@, text: text@ }),
            old(self).ran_in_order() ==> final(self).ran_in_order(),
    {
        let ghost log = self.log@.push(AssemblyStep::Fragment { id: id@, text: text@ });
        proof {
            assert(log.drop_last() =~= self.log@);
        }
        let est = estimate_tokens(text);
        if est > self.limit || self.limit - est < 20 || self.limit - est - 20 < self.tokens {
            self.log = Ghost(log);
            return false;
        }
        let ft = est + 20;
        if !self.l3_added {
            self.append_text("\n## L3 SEMANTIC MEMORY\n");
            self.l3_added = true;
        }
        self.append_text("[Memory ID: ");
        self.append_text(id);
        self.append_text("]\n");
        self.append_text(text);
        self.append_text("\n");
        self.tokens = self.tokens + ft;
        self.log = Ghost(log);
        true
    }

    /// Whether the budget is used up, so that no further query is run.
    pub fn budget_spent(&self) -> (b: bool)
        ensures
            b == (self@.tokens >= self@.limit),
    {
        self.tokens >= self.limit
    }

    /// Closes the window with the instruction.
    pub fn finish(self) -> (r: String)
        ensures
            r@ == finished_text(self@),
            self.ran_in_order() && well_ordered(self.log()) ==> ({
                let h = context_header().len() as int;
                let tail = "## INSTRUCTION\n"@ + self@.l1 + "\n"@;
                &&& self@.tokens <= self@.limit
                &&& r@.subrange(0, h) == context_header()
                &&& r@.len() >= h + tail.len()
                &&& r@.subrange(r@.len() - tail.len(), r@.len() as int) == tail
                &&& self@.has_l2 ==> occurs_at(r@, attached_heading(), h) && h + attached_heading().len()
                    <= r@.len() - tail.len()
                &&& self@.has_l2 && self@.l3_added ==> exists|j: int|
                    h + attached_heading().len() <= j && j + memory_heading().len() <= r@.len() - tail.len()
                        && occurs_at(r@, memory_heading(), j)
            }),
    {
        proof {
            if self.ran_in_order() && well_ordered(self.log()) {
                law_assembly_run(self@.l1, self@.limit, self.log());
            }
        }
        let mut text = self.text;
        if self.has_l2 || self.l3_added {
            text.append("\n");
        }
        text.append("## INSTRUCTION\n");
        text.append(self.l1.as_str());
        text.append("\n");
        text
    }
}

/// No step of the assembly takes the window over its budget: a file
/// admitted for its size, whose content is no larger than that size, and a
/// fragment that was accepted, both leave the tokens within the limit; a
/// refused file costs nothing.
pub proof fn law_steps_keep_budget(
    m: ContextModel,
    ref_uri: Seq<char>,
    size: u64,
    path_part: Seq<char>,
    content: Seq<char>,
    id: Seq<char>,
    fragment: Seq<char>,
)
    requires
        m.tokens <= m.limit,
    ensures
        file_fits(m, size) && byte_len(content) <= size ==> after_file_added(m, path_part, content).tokens
            <= m.limit,
        after_file_refused(m, ref_uri, size).tokens == m.tokens,
        m.tokens + fragment_tokens(fragment) <= m.limit ==> after_fragment_added(m, id, fragment).tokens
            <= m.limit,
{
    if file_fits(m, size) && byte_len(content) <= size {
        assert(byte_len(content) as int / 4 <= size as int / 4);
    }
}

/// A step never lowers the token count.
proof fn lemma_step_grows(m: ContextModel, s: AssemblyStep)
    ensures
        after_step(m, s).tokens >= m.tokens,
{
}

proof fn lemma_run_grows(m: ContextModel, steps: Seq<AssemblyStep>, j: int)
    requires
        0 <= j <= steps.len(),
    ensures
        after_steps(m, steps).tokens >= after_steps(m, steps.take(j)).tokens,
    decreases steps.len(),
{
    if j == steps.len() {
        assert(steps.take(j) =~= steps);
    } else {
        let d = steps.drop_last();
        assert(d.take(j) =~= steps.take(j));
        lemma_run_grows(m, d, j);
        lemma_step_grows(after_steps(m, d), steps.last());
    }
}

/// Attaching a file's content raises the window's count by exactly the
/// tokens of that content (a token per four bytes) and ten more, and puts
/// the whole content into the window's text.
pub proof fn law_attached_file_is_counted(m: ContextModel, path_part: Seq<char>, content: Seq<char>)
    ensures
        after_file_added(m, path_part, content).tokens == m.tokens + vstd::utf8::encode_utf8(content).len()
            as usize as int / 4 + 10,
        exists|i: int| occurs_at(after_file_added(m, path_part, content).text, content, i),
{
    let t = after_file_added(m, path_part, content).text;
    let pre = with_attached_heading(m) + "[File: "@ + path_part + "]\n"@;
    assert(t =~= pre + content + "\n"@);
    assert(occurs_at(t, content, pre.len() as int)) by {
        assert(t.subrange(pre.len() as int, (pre.len() + content.len()) as int) =~= content);
    }
}

/// Over a whole assembly, the count never falls below the base of the
/// window plus the tokens of any content attached along the way, file or
/// memory fragment: nothing that went into the window is left uncounted.
pub proof fn law_attached_text_stays_counted(l1: Seq<char>, limit: int, steps: Seq<AssemblyStep>, k: int)
    requires
        0 <= k < steps.len(),
    ensures
        ({
            let at = after_steps(begun(l1, limit), steps.take(k));
            let total = after_steps(begun(l1, limit), steps).tokens;
            &&& total >= base_tokens(l1)
            &&& match steps[k] {
                AssemblyStep::File { size, content, .. } => file_fits(at, size) ==> total >= base_tokens(l1)
                    + tokens_of(content) + 10,
                AssemblyStep::Attached { content, .. } => total >= base_tokens(l1) + tokens_of(content) + 10,
                AssemblyStep::Fragment { text, .. } => at.tokens + fragment_tokens(text) <= at.limit ==> total
                    >= base_tokens(l1) + fragment_tokens(text),
            }
        }),
{
    let m = begun(l1, limit);
    let pre = steps.take(k);
    lemma_run_grows(m, pre, 0);
    assert(pre.take(0) =~= Seq::<AssemblyStep>::empty());
    let next = steps.take(k + 1);
    assert(next.drop_last() =~= pre);
    assert(next.last() == steps[k]);
    lemma_run_grows(m, steps, k + 1);
    lemma_run_grows(m, steps, 0);
    assert(steps.take(0) =~= Seq::<AssemblyStep>::empty());
}

/// Every finished window starts with the system instructions and ends with
/// the instruction of the process, whatever was attached between them.
pub proof fn law_window_frames_instruction(m: ContextModel)
    requires
        m.text.len() >= context_header().len(),
        m.text.subrange(0, context_header().len() as int) == context_header(),
    ensures
        finished_text(m).subrange(0, context_header().len() as int) == context_header(),
        finished_text(m).subrange(
            finished_text(m).len() - ("## INSTRUCTION\n"@ + m.l1 + "\n"@).len(),
            finished_text(m).len() as int,
        ) == "## INSTRUCTION\n"@ + m.l1 + "\n"@,
{
    let tail = "## INSTRUCTION\n"@ + m.l1 + "\n"@;
    let head = if m.has_l2 || m.l3_added {
        m.text + "\n"@
    } else {
        m.text
    };
    assert(finished_text(m) =~= head + tail);
    assert(head.subrange(0, context_header().len() as int) =~= m.text.subrange(0, context_header().len() as int));
    assert(finished_text(m).subrange(0, context_header().len() as int) =~= head.subrange(0, context_header().len() as int));
    assert(finished_text(m).subrange(head.len() as int, finished_text(m).len() as int) =~= tail);
}

/// One step of a window's assembly, as a loop over a process's references
/// makes it: a file reference of the given size, whose content is attached
/// when it fits; or a memory fragment, attached when it fits.
pub enum AssemblyStep {
    File { ref_uri: Seq<char>, path_part: Seq<char>, size: u64, content: Seq<char> },
    Fragment { id: Seq<char>, text: Seq<char> },
    /// A file's content attached without a fresh admission.
    Attached { path_part: Seq<char>, content: Seq<char> },
}

/// The window after one step: what `admit_file` then `add_file`, or
/// `add_fragment`, make of it.
pub open spec fn after_step(m: ContextModel, s: AssemblyStep) -> ContextModel {
    match s {
        AssemblyStep::File { ref_uri, path_part, size, content } => if file_fits(m, size) {
            after_file_added(m, path_part, content)
        } else {
            after_file_refused(m, ref_uri, size)
        },
        AssemblyStep::Fragment { id, text } => if m.tokens + fragment_tokens(text) <= m.limit {
            after_fragment_added(m, id, text)
        } else {
            m
        },
        AssemblyStep::Attached { path_part, content } => after_file_added(m, path_part, content),
    }
}

/// The window after a run of steps.
pub open spec fn after_steps(m: ContextModel, steps: Seq<AssemblyStep>) -> ContextModel
    decreases steps.len(),
{
    if steps.len() == 0 {
        m
    } else {
        after_step(after_steps(m, steps.drop_last()), steps.last())
    }
}

/// The window `begin_context` opens.
pub open spec fn begun(l1: Seq<char>, limit: int) -> ContextModel {
    ContextModel {
        text: context_header(),
        tokens: base_tokens(l1),
        limit,
        has_l2: false,
        l3_added: false,
        l1,
    }
}

/// Files come before fragments, each attached file was admitted just
/// before, and no file is larger than its reported size.
pub open spec fn well_ordered(steps: Seq<AssemblyStep>) -> bool {
    &&& forall|i: int| 0 <= i < steps.len() ==> !(#[trigger] steps[i] is Attached)
    &&& forall|i: int, j: int|
        0 <= i < j < steps.len() && #[trigger] steps[j] is File ==> #[trigger] steps[i] is File
    &&& forall|i: int|
        0 <= i < steps.len() ==> (#[trigger] steps[i] matches AssemblyStep::File { size, content, .. }
            ==> byte_len(content) <= size)
}

proof fn lemma_occurs_extend(t: Seq<char>, n: Seq<char>, i: int, u: Seq<char>)
    requires
        occurs_at(t, n, i),
    ensures
        occurs_at(t + u, n, i),
{
    assert((t + u).subrange(i, i + n.len()) =~= t.subrange(i, i + n.len()));
}

/// What every run of well-ordered steps keeps of a window.
pub open spec fn assembly_shape(m: ContextModel, l1: Seq<char>, limit: int) -> bool {
    let h = context_header().len() as int;
    &&& m.l1 == l1
    &&& m.limit == limit
    &&& m.tokens <= limit
    &&& m.text.len() >= h
    &&& m.text.subrange(0, h) == context_header()
    &&& !m.has_l2 && !m.l3_added ==> m.text == context_header()
    &&& m.has_l2 ==> occurs_at(m.text, attached_heading(), h)
    &&& m.has_l2 && m.l3_added ==> exists|j: int|
        h + attached_heading().len() <= j && occurs_at(m.text, memory_heading(), j)
}

proof fn lemma_run_shape(l1: Seq<char>, limit: int, steps: Seq<AssemblyStep>)
    requires
        base_tokens(l1) <= limit,
        well_ordered(steps),
    ensures
        assembly_shape(after_steps(begun(l1, limit), steps), l1, limit),
        (forall|k: int| 0 <= k < steps.len() ==> #[trigger] steps[k] is File) ==> !after_steps(
            begun(l1, limit),
            steps,
        ).l3_added,
    decreases steps.len(),
{
    let h = context_header().len() as int;
    if steps.len() == 0 {
        assert(context_header().subrange(0, h) =~= context_header());
    } else {
        let d = steps.drop_last();
        assert forall|i: int| 0 <= i < d.len() implies !(#[trigger] d[i] is Attached) by {
            assert(d[i] == steps[i]);
        }
        assert forall|i: int, j: int| 0 <= i < j < d.len() && #[trigger] d[j] is File implies #[trigger] d[i] is File by {
            assert(d[j] == steps[j] && d[i] == steps[i]);
        }
        assert forall|i: int| 0 <= i < d.len() implies (#[trigger] d[i] matches AssemblyStep::File {
            size,
            content,
            ..
        } ==> byte_len(content) <= size) by {
            assert(d[i] == steps[i]);
        }
        lemma_run_shape(l1, limit, d);
        let m = after_steps(begun(l1, limit), d);
        let s = steps.last();
        let n = after_step(m, s);
        assert(after_steps(begun(l1, limit), steps) == n);
        assert(s == steps[steps.len() - 1]);
        match s {
            AssemblyStep::File { ref_uri, path_part, size, content } => {
                assert forall|k: int| 0 <= k < d.len() implies #[trigger] d[k] is File by {
                    assert(d[k] == steps[k]);
                }
                assert(byte_len(content) <= size);
                law_steps_keep_budget(m, ref_uri, size, path_part, content, Seq::empty(), Seq::empty());
                let w = with_attached_heading(m);
                if !m.has_l2 {
                    assert(w == context_header() + attached_heading());
                    assert(w.subrange(h, h + attached_heading().len()) =~= attached_heading());
                }
                assert(occurs_at(w, attached_heading(), h));
                assert(w.subrange(0, h) =~= m.text.subrange(0, h));
                let tail = if file_fits(m, size) {
                    "[File: "@ + path_part + "]\n"@ + content + "\n"@
                } else {
                    "[SYSTEM: "@ + ref_uri + (if size > MAX_FILE_SIZE_BYTES {
                        " omitido por tamaño excesivo]\n"@
                    } else {
                        " omitido por falta de memoria]\n"@
                    })
                };
                assert(n.text =~= w + tail);
                lemma_occurs_extend(w, attached_heading(), h, tail);
                assert(n.text.subrange(0, h) =~= w.subrange(0, h));
                if m.has_l2 && m.l3_added {
                    let j = choose|j: int| h + attached_heading().len() <= j && occurs_at(m.text, memory_heading(), j);
                    lemma_occurs_extend(m.text, memory_heading(), j, tail);
                }
            },
            AssemblyStep::Fragment { id, text } => {
                law_steps_keep_budget(m, Seq::empty(), 0, Seq::empty(), Seq::empty(), id, text);
                assert(!(forall|k: int| 0 <= k < steps.len() ==> #[trigger] steps[k] is File)) by {
                    assert(!(steps[steps.len() - 1] is File));
                }
                if m.tokens + fragment_tokens(text) <= m.limit {
                    let pre = if m.l3_added {
                        m.text
                    } else {
                        m.text + memory_heading()
                    };
                    let tail = "[Memory ID: "@ + id + "]\n"@ + text + "\n"@;
                    assert(n.text =~= pre + tail);
                    assert(pre.subrange(0, h) =~= m.text.subrange(0, h));
                    assert(n.text.subrange(0, h) =~= pre.subrange(0, h));
                    if m.has_l2 {
                        lemma_occurs_extend(m.text, attached_heading(), h, pre.subrange(m.text.len() as int, pre.len() as int));
                        assert(m.text + pre.subrange(m.text.len() as int, pre.len() as int) =~= pre);
                        lemma_occurs_extend(pre, attached_heading(), h, tail);
                        if m.l3_added {
                            let j = choose|j: int| h + attached_heading().len() <= j && occurs_at(m.text, memory_heading(), j);
                            lemma_occurs_extend(m.text, memory_heading(), j, tail);
                        } else {
                            let j = m.text.len() as int;
                            assert(pre.subrange(j, j + memory_heading().len()) =~= memory_heading());
                            lemma_occurs_extend(pre, memory_heading(), j, tail);
                        }
                    }
                }
            },
            AssemblyStep::Attached { .. } => {
                assert(steps[steps.len() - 1] is Attached);
            },
        }
    }
}

/// A whole assembly, from `begin_context` through files and then memory
/// fragments to `finish`: the window starts with the system instructions
/// and ends with the instruction; the attached-context block, when there is
/// one, comes right after the system instructions and before the memory
/// block, and both come before the instruction; and the tokens counted stay
/// within the budget, given no file is larger than its reported size.
pub proof fn law_assembly_run(l1: Seq<char>, limit: int, steps: Seq<AssemblyStep>)
    requires
        base_tokens(l1) <= limit,
        well_ordered(steps),
    ensures
        ({
            let m = after_steps(begun(l1, limit), steps);
            let t = finished_text(m);
            let h = context_header().len() as int;
            let tail = "## INSTRUCTION\n"@ + l1 + "\n"@;
            &&& m.tokens <= limit
            &&& t.subrange(0, h) == context_header()
            &&& t.len() >= h + tail.len()
            &&& t.subrange(t.len() - tail.len(), t.len() as int) == tail
            &&& m.has_l2 ==> occurs_at(t, attached_heading(), h) && h + attached_heading().len()
                <= t.len() - tail.len()
            &&& m.has_l2 && m.l3_added ==> exists|j: int|
                h + attached_heading().len() <= j && j + memory_heading().len() <= t.len() - tail.len()
                    && occurs_at(t, memory_heading(), j)
        }),
{
    lemma_run_shape(l1, limit, steps);
    let m = after_steps(begun(l1, limit), steps);
    let t = finished_text(m);
    let h = context_header().len() as int;
    let tail = "## INSTRUCTION\n"@ + l1 + "\n"@;
    law_window_frames_instruction(m);
    let head = if m.has_l2 || m.l3_added {
        m.text + "\n"@
    } else {
        m.text
    };
    assert(t =~= head + tail);
    assert(head =~= m.text + head.subrange(m.text.len() as int, head.len() as int));
    if m.has_l2 {
        lemma_occurs_extend(m.text, attached_heading(), h, head.subrange(m.text.len() as int, head.len() as int) + tail);
        assert(m.text + (head.subrange(m.text.len() as int, head.len() as int) + tail) =~= t);
        if m.l3_added {
            let j = choose|j: int| h + attached_heading().len() <= j && occurs_at(m.text, memory_heading(), j);
            lemma_occurs_extend(m.text, memory_heading(), j, head.subrange(m.text.len() as int, head.len() as int) + tail);
        }
    }
}

// ---------------------------------------------------------------------------
// Long-term memory store
// ---------------------------------------------------------------------------

/// Failures of the long-term memory store.
#[derive(Debug, Clone, PartialEq)]
pub enum SwapError {
    ConnectionError(String),
    TableNotFound(String),
    StorageError(String),
    SearchError(String),
    SerializationError(String),
}

impl SwapError {
    /// The message of the error, as the memory store reports it.
    pub fn message(&self) -> (m: String)
        ensures
            m@ == match *self {
                SwapError::ConnectionError(e) => "LanceDB Connection Error: "@ + e@,
                SwapError::TableNotFound(e) => "Table Not Found: "@ + e@,
                SwapError::StorageError(e) => "Storage Error: "@ + e@,
                SwapError::SearchError(e) => "Search Error: "@ + e@,
                SwapError::SerializationError(e) => "Serialization Error: "@ + e@,
            },
    {
        match self {
            SwapError::ConnectionError(e) => concat2("LanceDB Connection Error: ", e.as_str()),
            SwapError::TableNotFound(e) => concat2("Table Not Found: ", e.as_str()),
            SwapError::StorageError(e) => concat2("Storage Error: ", e.as_str()),
            SwapError::SearchError(e) => concat2("Search Error: ", e.as_str()),
            SwapError::SerializationError(e) => concat2("Serialization Error: ", e.as_str()),
        }
    }
}

/// Where each tenant's long-term memory lives.
pub struct LanceSwapManager {
    base_path: String,
    table_name: String,
}

impl LanceSwapManager {
    pub fn new(base_path: &str) -> (m: LanceSwapManager)
        ensures
            m.base_path() == base_path@,
            m.table_name() == "memory_fragments"@,
    {
        LanceSwapManager { base_path: owned(base_path), table_name: owned("memory_fragments") }
    }

    pub closed spec fn base_path(&self) -> Seq<char> {
        self.base_path@
    }

    pub closed spec fn table_name(&self) -> Seq<char> {
        self.table_name@
    }

    /// The directory of a tenant's memory store.
    pub fn compute_db_path(&self, tenant_id: &str) -> (p: String)
        ensures
            p@ == self.base_path() + "/"@ + tenant_id@ + "/.aegis_swap"@,
    {
        let mut p = concat2(self.base_path.as_str(), "/");
        p.append(tenant_id);
        p.append("/.aegis_swap");
        p
    }

    /// Prepares a tenant's memory store at its directory. The store keeps
    /// nothing on disk yet, so this always succeeds.
    pub fn init_tenant(&self, tenant_id: &str) -> (r: Result<(), SwapError>)
        ensures
            r is Ok,
    {
        let _db_path = self.compute_db_path(tenant_id);
        Ok(())
    }

    /// Stores a fragment of text for a tenant and returns its id (a random
    /// UUID). The store keeps no vectors yet.
    pub fn store_fragment(&self, tenant_id: &str, _text: &str) -> (r: Result<String, SwapError>)
        ensures
            r matches Ok(id) && crate::ids::is_hyphenated_uuid(id@),
    {
        let _db_path = self.compute_db_path(tenant_id);
        Ok(crate::ids::new_uuid_v4())
    }
}

} // verus!
