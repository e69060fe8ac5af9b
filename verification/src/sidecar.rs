//! The sidecar process: how it is started, what becomes of the lines that it writes and of
//! its end, and how it is stopped.
use std::collections::VecDeque;

use vstd::prelude::*;
use vstd::slice::slice_subrange;
use vstd::string::*;
use vstd::utf8::*;

use crate::text::{decimal, lossy, numeral, opt_text, text_eq, texts, utf8_lossy};
use crate::value::{
    field, fields, int_number, integer, lemma_key_index_is, lemma_table_tree, opt_ref, opt_str,
    opt_tree, section_member, text, tree_result, Fields, Number, Tree, Value,
};

verus! {

broadcast use lemma_table_tree;

/// The most bytes of a line that are taken as they are.
pub const MAX_SIDECAR_LINE_BYTES: usize = 256 * 1024;

/// The bytes that are left free for the note on a line that was cut.
pub const NOTE_BYTES: usize = 80;

/// How many of the last lines of the error output are kept.
pub const STDERR_TAIL_MAX_LINES: usize = 40;

/// How long the sidecar may take to end by itself, in milliseconds.
pub const GRACEFUL_SHUTDOWN_TIMEOUT_MS: u64 = 5000;

/// How long to wait before looking again whether the sidecar has ended, in milliseconds.
pub const SHUTDOWN_POLL_MS: u64 = 50;

/// The line that asks the sidecar to end.
pub const SHUTDOWN_CONTROL_JSON: &'static str = "{\"type\":\"control\",\"command\":\"shutdown\"}";

/// The size from which a packaged sidecar is a real one, and no placeholder.
pub const MIN_PACKAGED_SIDECAR_BYTES: u64 = 512 * 1024;

// ---------------------------------------------------------------------------
// Lines
// ---------------------------------------------------------------------------

/// `str::from_utf8`: it succeeds on bytes that are UTF-8, and on no others.
#[verifier::external_body]
fn is_utf8(bytes: &[u8]) -> (r: bool)
    ensures
        r == valid_utf8(bytes@),
{
    std::str::from_utf8(bytes).is_ok()
}

/// The length of the longest part at the start of `bytes`, of at most `n` bytes, that is UTF-8.
pub open spec fn utf8_prefix(bytes: Seq<u8>, n: int) -> int
    decreases n,
{
    if n <= 0 || valid_utf8(bytes.take(n)) {
        n
    } else {
        utf8_prefix(bytes, n - 1)
    }
}

/// The text of a line: what its bytes encode, or where there are too many of them, what the
/// longest part at the start encodes that leaves room for a note on the whole length.
pub open spec fn clamped(bytes: Seq<u8>) -> Seq<char> {
    if bytes.len() <= MAX_SIDECAR_LINE_BYTES {
        utf8_lossy(bytes)
    } else {
        decode_utf8(bytes.take(utf8_prefix(bytes, MAX_SIDECAR_LINE_BYTES - NOTE_BYTES)))
            + " … [truncated, "@ + decimal(bytes.len()) + " bytes total]"@
    }
}

/// The text of a line. One that was cut has fewer bytes than a line may have; one that is UTF-8
/// and was not cut is the text that its bytes encode.
pub fn clamp_line_bytes(bytes: &[u8]) -> (r: String)
    ensures
        r@ == clamped(bytes@),
        bytes@.len() <= MAX_SIDECAR_LINE_BYTES && valid_utf8(bytes@) ==> r@ == decode_utf8(bytes@),
        bytes@.len() > MAX_SIDECAR_LINE_BYTES ==> encode_utf8(r@).len() < MAX_SIDECAR_LINE_BYTES,
{
    if bytes.len() <= MAX_SIDECAR_LINE_BYTES {
        return lossy(bytes);
    }
    let mut end: usize = MAX_SIDECAR_LINE_BYTES - NOTE_BYTES;
    let ghost most = end as int;
    while end > 0 && !is_utf8(slice_subrange(bytes, 0, end))
        invariant
            end <= most == MAX_SIDECAR_LINE_BYTES - NOTE_BYTES,
            bytes@.len() > MAX_SIDECAR_LINE_BYTES,
            utf8_prefix(bytes@, most) == utf8_prefix(bytes@, end as int),
        decreases end,
    {
        assert(bytes@.subrange(0, end as int) =~= bytes@.take(end as int));
        end = end - 1;
    }
    let head = slice_subrange(bytes, 0, end);
    assert(head@ =~= bytes@.take(end as int));
    let mut r = lossy(head);
    proof {
        lemma_note_len(head@, bytes@.len());
    }
    r.append(" … [truncated, ");
    r.append(numeral(bytes.len() as u128).as_str());
    r.append(" bytes total]");
    r
}

/// The bytes of two texts one after the other.
proof fn lemma_encoded_concat(a: Seq<char>, b: Seq<char>)
    ensures
        encode_utf8(a + b) == encode_utf8(a) + encode_utf8(b),
    decreases a.len(),
{
    if a.len() == 0 {
        assert(a + b =~= b);
        assert(encode_utf8(a) + encode_utf8(b) =~= encode_utf8(b));
    } else {
        lemma_encoded_concat(a.drop_first(), b);
        assert((a + b).drop_first() =~= a.drop_first() + b);
        assert(encode_utf8(a + b) =~= encode_utf8(a) + encode_utf8(b));
    }
}

/// A character has at most four bytes.
proof fn lemma_encoded_char(c: char)
    ensures
        encode_utf8(seq![c]).len() <= 4,
{
    assert(seq![c].drop_first() =~= Seq::<char>::empty());
    assert(encode_utf8(Seq::<char>::empty()).len() == 0);
}

/// The digits of a number are ASCII characters.
proof fn lemma_decimal_ascii(n: nat)
    ensures
        is_ascii_chars(decimal(n)),
    decreases n,
{
    if n >= 10 {
        lemma_decimal_ascii(n / 10);
    }
}

/// The note on a line that was cut has fewer bytes than are left free for it.
proof fn lemma_note_len(head: Seq<u8>, n: nat)
    requires
        valid_utf8(head),
        head.len() <= MAX_SIDECAR_LINE_BYTES - NOTE_BYTES,
        n <= u64::MAX,
    ensures
        encode_utf8(
            decode_utf8(head) + " … [truncated, "@ + decimal(n) + " bytes total]"@,
        ).len() < MAX_SIDECAR_LINE_BYTES,
{
    let text = decode_utf8(head);
    let open = " … [truncated, "@;
    let close = " bytes total]"@;
    reveal_strlit(" … [truncated, ");
    reveal_strlit(" bytes total]");
    decode_utf8_encode_utf8(head);
    lemma_encoded_concat(text + open + decimal(n), close);
    lemma_encoded_concat(text + open, decimal(n));
    lemma_encoded_concat(text, open);
    let left = open.take(1);
    let right = open.skip(2);
    assert(open =~= left + (seq![open[1]] + right));
    lemma_encoded_concat(left, seq![open[1]] + right);
    lemma_encoded_concat(seq![open[1]], right);
    lemma_encoded_char(open[1]);
    assert(is_ascii_chars(left));
    assert(is_ascii_chars(right));
    assert(is_ascii_chars(close));
    is_ascii_chars_encode_utf8(left);
    is_ascii_chars_encode_utf8(right);
    is_ascii_chars_encode_utf8(close);
    lemma_decimal_ascii(n);
    is_ascii_chars_encode_utf8(decimal(n));
    lemma_decimal_len(n);
}

/// Ten to the power of `d`.
spec fn ten_to(d: nat) -> nat
    decreases d,
{
    if d == 0 {
        1
    } else {
        10 * ten_to((d - 1) as nat)
    }
}

/// A number below ten to the power of `d` has at most `d` digits.
proof fn lemma_digits(n: nat, d: nat)
    requires
        d > 0,
        n < ten_to(d),
    ensures
        decimal(n).len() <= d,
    decreases d,
{
    if n >= 10 {
        if d == 1 {
            assert(ten_to(0) == 1);
        } else {
            lemma_digits(n / 10, (d - 1) as nat);
        }
    }
}

/// A length has at most twenty digits.
proof fn lemma_decimal_len(n: nat)
    requires
        n <= u64::MAX,
    ensures
        decimal(n).len() <= 20,
{
    reveal_with_fuel(ten_to, 21);
    assert(ten_to(20) == 100000000000000000000);
    lemma_digits(n, 20);
}

// ---------------------------------------------------------------------------
// The last lines of the error output
// ---------------------------------------------------------------------------

/// What is kept of the sidecar while it runs: the last lines of its error output, and whether
/// it was asked to end.
#[derive(Debug, PartialEq, Eq)]
pub struct SidecarIoState {
    pub stderr_tail: VecDeque<String>,
    pub shutdown_requested: bool,
}

/// The lines with one more; the oldest leaves where there are as many as are kept.
pub open spec fn tail_with(tail: Seq<Seq<char>>, line: Seq<char>) -> Seq<Seq<char>> {
    (if tail.len() >= STDERR_TAIL_MAX_LINES {
        tail.drop_first()
    } else {
        tail
    }).push(line)
}

impl SidecarIoState {
    /// No more lines are kept than the limit says.
    pub open spec fn wf(&self) -> bool {
        self.stderr_tail@.len() <= STDERR_TAIL_MAX_LINES
    }

    /// Nothing is kept, and nothing was asked.
    pub fn new() -> (r: SidecarIoState)
        ensures
            r.wf(),
            texts(r.stderr_tail@) == Seq::<Seq<char>>::empty(),
            !r.shutdown_requested,
    {
        let r = SidecarIoState {
            stderr_tail: VecDeque::with_capacity(STDERR_TAIL_MAX_LINES),
            shutdown_requested: false,
        };
        assert(texts(r.stderr_tail@) =~= Seq::<Seq<char>>::empty());
        r
    }
}

/// Keeps one more line.
pub fn push_stderr_tail(tail: &mut VecDeque<String>, line: String)
    ensures
        texts(final(tail)@) == tail_with(texts(old(tail)@), line@),
        old(tail)@.len() <= STDERR_TAIL_MAX_LINES ==> final(tail)@.len() <= STDERR_TAIL_MAX_LINES,
{
    let ghost before = texts(tail@);
    if tail.len() >= STDERR_TAIL_MAX_LINES {
        let _ = tail.pop_front();
        assert(texts(tail@) =~= before.drop_first());
    }
    let ghost kept = texts(tail@);
    tail.push_back(line);
    assert(texts(tail@) =~= kept.push(line@));
}

/// The lines that are kept, the oldest first.
pub fn stderr_tail_snapshot(tail: &VecDeque<String>) -> (r: Vec<String>)
    ensures
        texts(r@) == texts(tail@),
{
    let mut out: Vec<String> = Vec::new();
    let mut i: usize = 0;
    while i < tail.len()
        invariant
            i <= tail@.len(),
            out@.len() == i,
            forall|j: int| 0 <= j < i ==> (#[trigger] out@[j])@ == tail@[j]@,
        decreases tail@.len() - i,
    {
        out.push(tail[i].clone());
        i = i + 1;
    }
    assert(texts(out@) =~= texts(tail@));
    out
}

/// The lines that are kept after so many more.
pub open spec fn tail_after(lines: Seq<Seq<char>>) -> Seq<Seq<char>>
    decreases lines.len(),
{
    if lines.len() == 0 {
        Seq::empty()
    } else {
        tail_with(tail_after(lines.drop_last()), lines.last())
    }
}

/// What is kept is the last lines, as many as the limit says, in their order.
pub proof fn law_tail_is_the_last_lines(lines: Seq<Seq<char>>)
    ensures
        tail_after(lines) == if lines.len() > STDERR_TAIL_MAX_LINES {
            lines.skip(lines.len() - STDERR_TAIL_MAX_LINES)
        } else {
            lines
        },
    decreases lines.len(),
{
    if lines.len() > 0 {
        let front = lines.drop_last();
        law_tail_is_the_last_lines(front);
        if lines.len() > STDERR_TAIL_MAX_LINES {
            assert(tail_after(lines) =~= lines.skip(lines.len() - STDERR_TAIL_MAX_LINES));
        } else {
            assert(tail_after(lines) =~= lines);
        }
    }
}

// ---------------------------------------------------------------------------
// Starting
// ---------------------------------------------------------------------------

/// How the sidecar is started.
#[derive(Clone, Copy, Debug, PartialEq, Eq, Structural)]
pub enum SidecarSpawnMode {
    /// The program that came with the installation.
    Packaged,
    /// The script, with the Python interpreter.
    PythonDev,
}

/// The file name of the packaged sidecar on a machine.
pub open spec fn exe_name(windows_x86_64: bool) -> Seq<char> {
    if windows_x86_64 {
        "hermes_agent-x86_64-pc-windows-msvc.exe"@
    } else {
        "hermes_agent-x86_64-unknown-linux-gnu"@
    }
}

/// The file name of the packaged sidecar on a machine.
pub fn packaged_sidecar_exe_name(windows_x86_64: bool) -> (r: &'static str)
    ensures
        r@ == exe_name(windows_x86_64),
{
    if windows_x86_64 {
        "hermes_agent-x86_64-pc-windows-msvc.exe"
    } else {
        "hermes_agent-x86_64-unknown-linux-gnu"
    }
}

/// A file of this length is a packaged sidecar; none where there is no file.
pub open spec fn is_packaged(len: Option<u64>) -> bool {
    match len {
        Some(n) => n >= MIN_PACKAGED_SIDECAR_BYTES,
        None => false,
    }
}

/// Whether a file of this length is a packaged sidecar.
pub fn packaged_sidecar_ready(len: Option<u64>) -> (r: bool)
    ensures
        r == is_packaged(len),
{
    match len {
        Some(n) => n >= MIN_PACKAGED_SIDECAR_BYTES,
        None => false,
    }
}

/// The value of `HERMES_USE_PACKAGED_SIDECAR` says yes.
pub open spec fn says_yes(value: Option<Seq<char>>) -> bool {
    match value {
        Some(v) => v == "1"@ || v == "true"@ || v == "TRUE"@ || v == "yes"@ || v == "YES"@,
        None => false,
    }
}

/// The packaged sidecar is taken before the script: where it is a real one, and in a debug
/// build only where the environment says so.
pub open spec fn prefers_packaged(
    debug_build: bool,
    len: Option<u64>,
    value: Option<Seq<char>>,
) -> bool {
    is_packaged(len) && (!debug_build || says_yes(value))
}

/// Whether the packaged sidecar is taken before the script.
pub fn should_prefer_packaged_sidecar(
    debug_build: bool,
    len: Option<u64>,
    value: Option<&str>,
) -> (r: bool)
    ensures
        r == prefers_packaged(debug_build, len, opt_str(value)),
{
    if !packaged_sidecar_ready(len) {
        return false;
    }
    if debug_build {
        match value {
            Some(v) => text_eq(v, "1") || text_eq(v, "true") || text_eq(v, "TRUE") || text_eq(
                v,
                "yes",
            ) || text_eq(v, "YES"),
            None => false,
        }
    } else {
        true
    }
}

/// How the sidecar is started: packaged where that is preferred, else by its script where that
/// is there, else packaged after all where it can be.
pub open spec fn spawn_mode(
    debug_build: bool,
    len: Option<u64>,
    value: Option<Seq<char>>,
    script_exists: bool,
    exe: Seq<char>,
    script: Seq<char>,
) -> Result<SidecarSpawnMode, Seq<char>> {
    if prefers_packaged(debug_build, len, value) {
        Ok(SidecarSpawnMode::Packaged)
    } else if script_exists {
        Ok(SidecarSpawnMode::PythonDev)
    } else if is_packaged(len) {
        Ok(SidecarSpawnMode::Packaged)
    } else {
        Err(
            "Sidecar binary missing or too small ("@ + exe + ") and entry script missing ("@
                + script + ")"@,
        )
    }
}

/// An outcome with the content of its error.
pub open spec fn mode_result(r: Result<SidecarSpawnMode, String>) -> Result<
    SidecarSpawnMode,
    Seq<char>,
> {
    match r {
        Ok(m) => Ok(m),
        Err(e) => Err(e@),
    }
}

/// How the sidecar is started: from the length of the packaged file, the value of
/// `HERMES_USE_PACKAGED_SIDECAR`, whether the script is there, and the two paths as they are
/// shown.
pub fn resolve_sidecar_spawn(
    debug_build: bool,
    len: Option<u64>,
    value: Option<&str>,
    script_exists: bool,
    exe: &str,
    script: &str,
) -> (r: Result<SidecarSpawnMode, String>)
    ensures
        mode_result(r) == spawn_mode(
            debug_build,
            len,
            opt_str(value),
            script_exists,
            exe@,
            script@,
        ),
{
    if should_prefer_packaged_sidecar(debug_build, len, value) {
        return Ok(SidecarSpawnMode::Packaged);
    }
    if script_exists {
        return Ok(SidecarSpawnMode::PythonDev);
    }
    if packaged_sidecar_ready(len) {
        return Ok(SidecarSpawnMode::Packaged);
    }
    let mut e = "Sidecar binary missing or too small (".to_owned();
    e.append(exe);
    e.append(") and entry script missing (");
    e.append(script);
    e.append(")");
    Err(e)
}

/// Starting fails only where the script is missing and the packaged file is no sidecar.
pub proof fn law_spawn_fails_only_without_both(
    debug_build: bool,
    len: Option<u64>,
    value: Option<Seq<char>>,
    script_exists: bool,
    exe: Seq<char>,
    script: Seq<char>,
)
    ensures
        spawn_mode(debug_build, len, value, script_exists, exe, script) is Err <==> !script_exists
            && !is_packaged(len),
        spawn_mode(debug_build, len, value, script_exists, exe, script) == Ok::<
            SidecarSpawnMode,
            Seq<char>,
        >(SidecarSpawnMode::Packaged) ==> is_packaged(len),
{
}

/// The arguments and the environment with which Python starts the sidecar.
#[derive(Debug, PartialEq, Eq)]
pub struct PythonStart {
    pub args: Vec<String>,
    pub env: Vec<(String, String)>,
}

/// What is set in the environment of Python: on Windows, that it writes UTF-8.
pub open spec fn python_env(windows: bool) -> Seq<(Seq<char>, Seq<char>)> {
    if windows {
        seq![("PYTHONUTF8"@, "1"@), ("PYTHONIOENCODING"@, "utf-8"@)]
    } else {
        Seq::empty()
    }
}

/// The contents of pairs of strings.
pub open spec fn pairs(v: Seq<(String, String)>) -> Seq<(Seq<char>, Seq<char>)> {
    Seq::new(v.len(), |i: int| (v[i].0@, v[i].1@))
}

/// What is set in the environment of Python.
pub fn python_environment(windows: bool) -> (r: Vec<(String, String)>)
    ensures
        pairs(r@) == python_env(windows),
{
    let mut r: Vec<(String, String)> = Vec::new();
    if windows {
        r.push(("PYTHONUTF8".to_owned(), "1".to_owned()));
        r.push(("PYTHONIOENCODING".to_owned(), "utf-8".to_owned()));
    }
    assert(pairs(r@) =~= python_env(windows));
    r
}

/// How Python starts the script, with its output unbuffered where that is asked for.
pub fn python_start(script: &str, unbuffered: bool, windows: bool) -> (r: PythonStart)
    ensures
        texts(r.args@) == if unbuffered {
            seq!["-u"@, script@]
        } else {
            seq![script@]
        },
        pairs(r.env@) == python_env(windows),
{
    let mut args: Vec<String> = Vec::new();
    if unbuffered {
        args.push("-u".to_owned());
    }
    args.push(script.to_owned());
    assert(texts(args@) =~= if unbuffered {
        seq!["-u"@, script@]
    } else {
        seq![script@]
    });
    PythonStart { args, env: python_environment(windows) }
}

/// The complaint about a sidecar that could not be started.
pub open spec fn start_complaint(mode: SidecarSpawnMode, e: Seq<char>) -> Seq<char> {
    match mode {
        SidecarSpawnMode::Packaged => "Could not start sidecar binary: "@ + e,
        SidecarSpawnMode::PythonDev => "Could not start sidecar (python): "@ + e,
    }
}

/// The complaint about a sidecar that could not be started.
pub fn start_error(mode: SidecarSpawnMode, e: &str) -> (r: String)
    ensures
        r@ == start_complaint(mode, e@),
{
    let mut r = match mode {
        SidecarSpawnMode::Packaged => "Could not start sidecar binary: ".to_owned(),
        SidecarSpawnMode::PythonDev => "Could not start sidecar (python): ".to_owned(),
    };
    r.append(e);
    r
}

// ---------------------------------------------------------------------------
// What the sidecar says
// ---------------------------------------------------------------------------

/// What is known of the sidecar.
#[derive(Debug, PartialEq, Eq)]
pub struct SidecarState {
    pub running: bool,
    pub protocol_version: u32,
    pub hermes_version: String,
    pub io: SidecarIoState,
}

/// What is told when the sidecar ends without having been asked to.
#[derive(Debug, PartialEq, Eq)]
pub struct SidecarFatalPayload {
    pub exit_code: Option<u32>,
    pub signal: Option<i32>,
    pub last_stderr_lines: Vec<String>,
    pub reason: String,
}

/// What is done about something that the sidecar said or did.
#[derive(Debug, PartialEq, Eq)]
pub enum Reaction {
    /// The event `sidecar-ready`, with the message.
    Ready(Value),
    /// The event `agent-data`, with the message.
    Data(Value),
    /// The event `agent-raw`, with a line that is no message.
    Raw(String),
    /// A line for the log.
    Log(String),
    /// The event `agent-error`, with a line of the error output.
    Error(String),
    /// The event `agent-terminated`, with the exit code and the signal.
    Terminated(Value),
    /// The event `sidecar-fatal-error`.
    Fatal(SidecarFatalPayload),
}

/// What is done, by its contents.
pub enum Response {
    Ready(Tree),
    Data(Tree),
    Raw(Seq<char>),
    Log(Seq<char>),
    Error(Seq<char>),
    Terminated(Tree),
    Fatal(Option<u32>, Option<i32>, Seq<Seq<char>>, Seq<char>),
}

impl View for Reaction {
    type V = Response;

    open spec fn view(&self) -> Response {
        match self {
            Reaction::Ready(v) => Response::Ready(v@),
            Reaction::Data(v) => Response::Data(v@),
            Reaction::Raw(s) => Response::Raw(s@),
            Reaction::Log(s) => Response::Log(s@),
            Reaction::Error(s) => Response::Error(s@),
            Reaction::Terminated(v) => Response::Terminated(v@),
            Reaction::Fatal(p) => Response::Fatal(
                p.exit_code,
                p.signal,
                texts(p.last_stderr_lines@),
                p.reason@,
            ),
        }
    }
}

/// The contents of what is done.
pub open spec fn responses(v: Seq<Reaction>) -> Seq<Response> {
    Seq::new(v.len(), |i: int| v[i]@)
}

/// The method of a message: under `method`, or else under `type`.
pub open spec fn method_of(msg: Tree) -> Option<Seq<char>> {
    match msg.member_text("method"@) {
        Some(m) => Some(m),
        None => msg.member_text("type"@),
    }
}

/// What a greeting says: under `params`, or else under `data`; nothing in any other message.
pub open spec fn greeting(msg: Tree) -> Option<Tree> {
    if method_of(msg) == Some("sidecar_hello"@) {
        match msg.member("params"@) {
            Some(d) => Some(d),
            None => msg.member("data"@),
        }
    } else {
        None
    }
}

/// The version of the protocol that a greeting says; the lower 32 bits of the number there, and
/// zero where there is none.
pub open spec fn greeted_protocol(data: Tree) -> int {
    match data.member("protocol_version"@) {
        Some(v) => match v.as_u64() {
            Some(n) => n as int % 0x1_0000_0000,
            None => 0,
        },
        None => 0,
    }
}

/// What is done about a line of the output: a message is passed on, after an event of its own
/// where it is a greeting; a line that is no message is passed on as it is.
pub open spec fn line_responses(line: Seq<char>, msg: Option<Tree>) -> Seq<Response> {
    match msg {
        Some(m) => match greeting(m) {
            Some(_) => seq![Response::Ready(m), Response::Data(m)],
            None => seq![Response::Data(m)],
        },
        None => seq![Response::Raw(line)],
    }
}

/// What the sidecar is known by stays, but for the versions that a greeting says.
pub open spec fn greeted(before: SidecarState, after: SidecarState, msg: Option<Tree>) -> bool {
    let data = match msg {
        Some(m) => greeting(m),
        None => None,
    };
    &&& after.running == before.running
    &&& after.io == before.io
    &&& match data {
        Some(d) => {
            &&& after.protocol_version == greeted_protocol(d)
            &&& after.hermes_version@ == d.text_or("hermes_version"@, before.hermes_version@)
        },
        None => {
            &&& after.protocol_version == before.protocol_version
            &&& after.hermes_version@ == before.hermes_version@
        },
    }
}

/// What is done about a line of the output; `msg` is the message that the line is, where it is
/// one.
pub fn on_stdout(state: &mut SidecarState, line: String, msg: Option<Value>) -> (r: Vec<Reaction>)
    ensures
        responses(r@) == line_responses(line@, opt_tree(msg)),
        greeted(*old(state), *final(state), opt_tree(msg)),
{
    let mut out: Vec<Reaction> = Vec::new();
    match msg {
        Some(m) => {
            let method = match m.member_text("method") {
                Some(t) => Some(t),
                None => m.member_text("type"),
            };
            let is_greeting: bool = match method {
                Some(t) => text_eq(t, "sidecar_hello"),
                None => false,
            };
            let data = if is_greeting {
                match m.member("params") {
                    Some(d) => Some(d),
                    None => m.member("data"),
                }
            } else {
                None
            };
            assert(opt_ref(data) == greeting(m@));
            if let Some(d) = data {
                let version: u64 = match d.member("protocol_version") {
                    Some(v) => match v.as_u64() {
                        Some(n) => n,
                        None => 0,
                    },
                    None => 0,
                };
                let low: u64 = version % 0x1_0000_0000;
                state.protocol_version = low as u32;
                if let Some(ver) = d.member_text("hermes_version") {
                    state.hermes_version = ver.to_owned();
                }
                out.push(Reaction::Ready(m.copy()));
            }
            out.push(Reaction::Data(m));
            assert(responses(out@) =~= line_responses(line@, Some(m@)));
        },
        None => {
            out.push(Reaction::Raw(line));
            assert(responses(out@) =~= line_responses(line@, None));
        },
    }
    out
}

/// What is done about a line of the error output: it is logged and passed on.
pub open spec fn error_responses(line: Seq<char>) -> Seq<Response> {
    seq![Response::Log(line), Response::Error(line)]
}

/// What is done about a line of the error output.
pub fn error_line(line: String) -> (r: Vec<Reaction>)
    ensures
        responses(r@) == error_responses(line@),
{
    let mut out: Vec<Reaction> = Vec::new();
    out.push(Reaction::Log(line.clone()));
    out.push(Reaction::Error(line));
    assert(responses(out@) =~= error_responses(line@));
    out
}

/// What is done about a line of the error output of a sidecar that is watched: it is kept
/// among the last ones, too.
pub fn on_stderr(state: &mut SidecarState, line: String) -> (r: Vec<Reaction>)
    ensures
        responses(r@) == error_responses(line@),
        texts(final(state).io.stderr_tail@) == tail_with(texts(old(state).io.stderr_tail@), line@),
        old(state).io.wf() ==> final(state).io.wf(),
        final(state).running == old(state).running,
        final(state).protocol_version == old(state).protocol_version,
        final(state).hermes_version == old(state).hermes_version,
        final(state).io.shutdown_requested == old(state).io.shutdown_requested,
{
    push_stderr_tail(&mut state.io.stderr_tail, line.clone());
    error_line(line)
}

/// An exit code or a signal in a document.
pub open spec fn code_tree(n: Option<i32>) -> Tree {
    match n {
        Some(c) => Tree::Number(int_number(c as i64)),
        None => Tree::Null,
    }
}

/// An exit code or a signal as a value.
fn code_value(n: Option<i32>) -> (r: Value)
    ensures
        r@ == code_tree(n),
{
    match n {
        Some(c) => integer(c as i64),
        None => Value::Null,
    }
}

/// The exit code and the signal of a process in a document.
pub open spec fn exit_tree(code: Option<i32>, signal: Option<i32>) -> Tree {
    Tree::Table(
        fields()
            .push(field("code"@, code_tree(code)))
            .push(field("signal"@, code_tree(signal))),
    )
}

/// The exit code and the signal of a process as a value.
fn exit_value(code: Option<i32>, signal: Option<i32>) -> (r: Value)
    ensures
        r@ == exit_tree(code, signal),
{
    Fields::new()
        .with("code", code_value(code))
        .with("signal", code_value(signal))
        .table()
}

/// The exit code as it is told of a failure: none below zero.
pub open spec fn failure_code(code: Option<i32>) -> Option<u32> {
    match code {
        Some(c) => Some(
            if c < 0 {
                0u32
            } else {
                c as u32
            },
        ),
        None => None,
    }
}

/// What is done when the sidecar ends: it is told, and where nobody had asked it to, as a
/// failure with the last lines of its error output.
pub open spec fn end_responses(
    io_tail: Seq<Seq<char>>,
    asked: bool,
    code: Option<i32>,
    signal: Option<i32>,
) -> Seq<Response> {
    let told = Response::Terminated(exit_tree(code, signal));
    if asked {
        seq![told]
    } else {
        seq![
            told,
            Response::Fatal(
                failure_code(code),
                signal,
                io_tail,
                "sidecar_exited_unexpectedly"@,
            ),
        ]
    }
}

/// What is done when a sidecar ends that is watched. It does not run any more.
pub fn on_terminated(state: &mut SidecarState, code: Option<i32>, signal: Option<i32>) -> (r: Vec<
    Reaction,
>)
    ensures
        responses(r@) == end_responses(
            texts(old(state).io.stderr_tail@),
            old(state).io.shutdown_requested,
            code,
            signal,
        ),
        !final(state).running,
        final(state).protocol_version == old(state).protocol_version,
        final(state).hermes_version == old(state).hermes_version,
        final(state).io == old(state).io,
{
    state.running = false;
    let mut out: Vec<Reaction> = Vec::new();
    out.push(Reaction::Terminated(exit_value(code, signal)));
    if !state.io.shutdown_requested {
        let exit_code: Option<u32> = match code {
            Some(c) => if c < 0 {
                Some(0)
            } else {
                Some(c as u32)
            },
            None => None,
        };
        out.push(
            Reaction::Fatal(
                SidecarFatalPayload {
                    exit_code,
                    signal,
                    last_stderr_lines: stderr_tail_snapshot(&state.io.stderr_tail),
                    reason: "sidecar_exited_unexpectedly".to_owned(),
                },
            ),
        );
    }
    assert(responses(out@) =~= end_responses(
        texts(state.io.stderr_tail@),
        state.io.shutdown_requested,
        code,
        signal,
    ));
    out
}

/// What is done when a sidecar ends that is not watched: it is told, and it does not run any
/// more.
pub fn agent_terminated(state: &mut SidecarState, code: Option<i32>, signal: Option<i32>) -> (r:
    Vec<Reaction>)
    ensures
        responses(r@) == seq![Response::Terminated(exit_tree(code, signal))],
        !final(state).running,
        final(state).protocol_version == old(state).protocol_version,
        final(state).hermes_version == old(state).hermes_version,
        final(state).io == old(state).io,
{
    state.running = false;
    let mut out: Vec<Reaction> = Vec::new();
    out.push(Reaction::Terminated(exit_value(code, signal)));
    assert(responses(out@) =~= seq![Response::Terminated(exit_tree(code, signal))]);
    out
}

// ---------------------------------------------------------------------------
// Starting and stopping
// ---------------------------------------------------------------------------

/// Whether to start the sidecar: only where none runs. A sidecar that is started was not asked
/// to end.
pub fn begin_spawn(state: &mut SidecarState) -> (r: bool)
    ensures
        r == !old(state).running,
        !r ==> *final(state) == *old(state),
        r ==> !final(state).io.shutdown_requested,
        final(state).running == old(state).running,
        final(state).protocol_version == old(state).protocol_version,
        final(state).hermes_version == old(state).hermes_version,
        final(state).io.stderr_tail == old(state).io.stderr_tail,
{
    if state.running {
        false
    } else {
        state.io.shutdown_requested = false;
        true
    }
}

/// Marks that the sidecar is asked to end, so that its end is no failure.
pub fn request_sidecar_shutdown(io: &mut SidecarIoState)
    ensures
        final(io).shutdown_requested,
        final(io).stderr_tail == old(io).stderr_tail,
{
    io.shutdown_requested = true;
}

/// Takes the sidecar away, and says whether there was one to be killed.
pub fn take_sidecar_child(state: &mut SidecarState) -> (r: bool)
    ensures
        r == old(state).running,
        !final(state).running,
        final(state).protocol_version == old(state).protocol_version,
        final(state).hermes_version == old(state).hermes_version,
        final(state).io == old(state).io,
{
    let running: bool = state.running;
    state.running = false;
    running
}

/// How long a sidecar may take to be gone after it was killed, in milliseconds, before killing
/// it is tried once more.
pub const KILL_RETRY_MS: u64 = 500;

/// Takes the sidecar away on purpose, and says whether there was one to be killed. How it is
/// killed is left to `kill_step`.
pub fn kill_sidecar_child(state: &mut SidecarState) -> (r: bool)
    ensures
        r == old(state).running,
        !final(state).running,
        final(state).io.shutdown_requested,
        final(state).io.stderr_tail == old(state).io.stderr_tail,
        final(state).protocol_version == old(state).protocol_version,
        final(state).hermes_version == old(state).hermes_version,
{
    request_sidecar_shutdown(&mut state.io);
    take_sidecar_child(state)
}

/// Begins to end the sidecar in good order: marks the intent, and gives the lines to write to
/// it where it runs.
pub fn begin_graceful_shutdown(state: &mut SidecarState) -> (r: Option<String>)
    ensures
        opt_text(r) == if old(state).running {
            Some(SHUTDOWN_CONTROL_JSON@ + "\n"@)
        } else {
            None
        },
        final(state).io.shutdown_requested,
        final(state).io.stderr_tail == old(state).io.stderr_tail,
        final(state).running == old(state).running,
        final(state).protocol_version == old(state).protocol_version,
        final(state).hermes_version == old(state).hermes_version,
{
    request_sidecar_shutdown(&mut state.io);
    if state.running {
        let mut line = SHUTDOWN_CONTROL_JSON.to_owned();
        line.append("\n");
        Some(line)
    } else {
        None
    }
}

/// What to do next while the sidecar is to end.
#[derive(Clone, Copy, Debug, PartialEq, Eq, Structural)]
pub enum ShutdownStep {
    /// It has ended.
    Done,
    /// Wait so many milliseconds and look again.
    Wait(u64),
    /// It has had its time: kill it.
    Kill,
}

/// What to do next, after so many milliseconds.
pub open spec fn next_shutdown_step(running: bool, waited_ms: int) -> ShutdownStep {
    if !running {
        ShutdownStep::Done
    } else if waited_ms >= GRACEFUL_SHUTDOWN_TIMEOUT_MS {
        ShutdownStep::Kill
    } else {
        ShutdownStep::Wait(SHUTDOWN_POLL_MS)
    }
}

/// What to do next while the sidecar is to end, after so many milliseconds.
pub fn graceful_shutdown_step(running: bool, waited_ms: u64) -> (r: ShutdownStep)
    ensures
        r == next_shutdown_step(running, waited_ms as int),
{
    if !running {
        ShutdownStep::Done
    } else if waited_ms >= GRACEFUL_SHUTDOWN_TIMEOUT_MS {
        ShutdownStep::Kill
    } else {
        ShutdownStep::Wait(SHUTDOWN_POLL_MS)
    }
}

/// The sidecar gets its full time and no more: as long as it runs it is waited for until the
/// limit, and then killed; the wait is over after a fixed number of looks.
pub proof fn law_shutdown_is_bounded(looks: nat)
    ensures
        next_shutdown_step(true, (looks * SHUTDOWN_POLL_MS) as int) == (if looks
            < GRACEFUL_SHUTDOWN_TIMEOUT_MS / SHUTDOWN_POLL_MS {
            ShutdownStep::Wait(SHUTDOWN_POLL_MS)
        } else {
            ShutdownStep::Kill
        }),
        next_shutdown_step(false, (looks * SHUTDOWN_POLL_MS) as int) == ShutdownStep::Done,
{
    assert(GRACEFUL_SHUTDOWN_TIMEOUT_MS / SHUTDOWN_POLL_MS == 100);
}

/// What to do next while the sidecar is killed.
#[derive(Clone, Copy, Debug, PartialEq, Eq, Structural)]
pub enum KillStep {
    /// Kill the process.
    Kill,
    /// Wait so many milliseconds and look again.
    Wait(u64),
    /// It is gone, or all was tried.
    Done,
}

/// What to do next while the sidecar is killed: where its process is still there, it is killed,
/// and once more where it is there still when its time is over.
pub open spec fn next_kill_step(running: bool, tries: int, waited_ms: int) -> KillStep {
    if !running || tries >= 2 {
        KillStep::Done
    } else if tries == 0 || waited_ms >= KILL_RETRY_MS {
        KillStep::Kill
    } else {
        KillStep::Wait(SHUTDOWN_POLL_MS)
    }
}

/// What to do next while the sidecar is killed, of whether its process is still there, how
/// often it was killed, and how many milliseconds ago that was done first.
pub fn kill_step(running: bool, tries: u32, waited_ms: u64) -> (r: KillStep)
    ensures
        r == next_kill_step(running, tries as int, waited_ms as int),
{
    if !running || tries >= 2 {
        KillStep::Done
    } else if tries == 0 || waited_ms >= KILL_RETRY_MS {
        KillStep::Kill
    } else {
        KillStep::Wait(SHUTDOWN_POLL_MS)
    }
}

/// How often the sidecar is killed, where at each look its process is still there or not, and
/// so many milliseconds have passed since it was killed first.
pub open spec fn kills_made(looks: Seq<(bool, int)>) -> int
    decreases looks.len(),
{
    if looks.len() == 0 {
        0
    } else {
        let before = kills_made(looks.drop_last());
        let (running, waited_ms) = looks.last();
        if next_kill_step(running, before, waited_ms) == KillStep::Kill {
            before + 1
        } else {
            before
        }
    }
}

/// A process that is there is killed; it is killed once more exactly where it is seen again when
/// its time is over, and never more than twice.
pub proof fn law_kills(looks: Seq<(bool, int)>)
    ensures
        0 <= kills_made(looks) <= 2,
        kills_made(looks) >= 1 <==> exists|a: int|
            0 <= a < looks.len() && (#[trigger] looks[a]).0,
        kills_made(looks) == 2 <==> exists|a: int, b: int|
            0 <= a < b < looks.len() && (#[trigger] looks[a]).0 && (#[trigger] looks[b]).0
                && looks[b].1 >= KILL_RETRY_MS,
    decreases looks.len(),
{
    if looks.len() > 0 {
        let front = looks.drop_last();
        let n = front.len() as int;
        law_kills(front);
        assert(looks[n] == looks.last());
        assert forall|a: int| 0 <= a < n implies looks[a] == front[a] by {}
        if kills_made(front) >= 1 {
            let a = choose|a: int| 0 <= a < front.len() && (#[trigger] front[a]).0;
            assert(looks[a].0);
        }
        if kills_made(front) == 2 {
            let (a, b) = choose|a: int, b: int|
                0 <= a < b < front.len() && (#[trigger] front[a]).0 && (#[trigger] front[b]).0
                    && front[b].1 >= KILL_RETRY_MS;
            assert(looks[a].0 && looks[b].0 && looks[b].1 >= KILL_RETRY_MS);
        } else {
            assert forall|a: int, b: int|
                0 <= a < b < n implies !((#[trigger] looks[a]).0 && (#[trigger] looks[b]).0
                && looks[b].1 >= KILL_RETRY_MS) by {
                assert(front[a] == looks[a] && front[b] == looks[b]);
            }
            assert forall|a: int| 0 <= a < n && (#[trigger] looks[a]).0 implies kills_made(front)
                >= 1 by {
                assert(front[a].0);
            }
        }
    }
}

/// The end of a sidecar that was asked to end is never told as a failure, and that of any other
/// always is.
pub proof fn law_failures_are_unasked(
    tail: Seq<Seq<char>>,
    asked: bool,
    code: Option<i32>,
    signal: Option<i32>,
)
    ensures
        asked <==> forall|i: int|
            0 <= i < end_responses(tail, asked, code, signal).len() ==> !((
            #[trigger] end_responses(tail, asked, code, signal)[i]) is Fatal),
{
    if !asked {
        assert(end_responses(tail, asked, code, signal)[1] is Fatal);
    }
}

// ---------------------------------------------------------------------------
// The agent
// ---------------------------------------------------------------------------

/// The size above which the packaged agent is a real one.
pub const REAL_AGENT_BYTES: u64 = 10_000_000;

/// The text of a line of the agent, however long it is.
pub fn agent_line(bytes: &[u8]) -> (r: String)
    ensures
        r@ == utf8_lossy(bytes@),
        valid_utf8(bytes@) ==> r@ == decode_utf8(bytes@),
{
    lossy(bytes)
}

/// How the agent is started: packaged where the file is a real one, else by its script.
pub open spec fn agent_mode(len: Option<u64>, script_exists: bool, script: Seq<char>) -> Result<
    SidecarSpawnMode,
    Seq<char>,
> {
    let packaged = match len {
        Some(n) => n > REAL_AGENT_BYTES,
        None => false,
    };
    if packaged {
        Ok(SidecarSpawnMode::Packaged)
    } else if script_exists {
        Ok(SidecarSpawnMode::PythonDev)
    } else {
        Err("Sidecar binary not found and entry script missing: "@ + script)
    }
}

/// How the agent is started: from the length of the packaged file, whether the script is
/// there, and its path as it is shown.
pub fn choose_agent_start(len: Option<u64>, script_exists: bool, script: &str) -> (r: Result<
    SidecarSpawnMode,
    String,
>)
    ensures
        mode_result(r) == agent_mode(len, script_exists, script@),
{
    let packaged: bool = match len {
        Some(n) => n > REAL_AGENT_BYTES,
        None => false,
    };
    if packaged {
        Ok(SidecarSpawnMode::Packaged)
    } else if script_exists {
        Ok(SidecarSpawnMode::PythonDev)
    } else {
        let mut e = "Sidecar binary not found and entry script missing: ".to_owned();
        e.append(script);
        Err(e)
    }
}

/// The request that puts a question to the agent.
pub open spec fn query_tree(query: Seq<char>, id: Seq<char>) -> Tree {
    Tree::Table(
        fields()
            .push(field("jsonrpc"@, Tree::Text("2.0"@)))
            .push(field("method"@, Tree::Text("chat"@)))
            .push(field("params"@, Tree::Table(fields().push(field("query"@, Tree::Text(query))))))
            .push(field("id"@, Tree::Text(id))),
    )
}

/// The request that puts a question to the agent, where it runs; without an identifier of its
/// own it gets one from the time, in milliseconds since the start of 1970.
pub open spec fn agent_query(
    running: bool,
    query: Seq<char>,
    id: Option<Seq<char>>,
    now_ms: nat,
) -> Result<Tree, Seq<char>> {
    if running {
        Ok(
            query_tree(
                query,
                match id {
                    Some(s) => s,
                    None => "q_"@ + decimal(now_ms),
                },
            ),
        )
    } else {
        Err("Sidecar agent is not started"@)
    }
}

/// The request that puts a question to the agent.
pub fn send_agent_query(running: bool, query: &str, id: Option<String>, now_ms: u128) -> (r: Result<
    Value,
    String,
>)
    ensures
        tree_result(r) == agent_query(running, query@, opt_text(id), now_ms as nat),
{
    if !running {
        return Err("Sidecar agent is not started".to_owned());
    }
    let id = match id {
        Some(s) => s,
        None => {
            let mut s = "q_".to_owned();
            s.append(numeral(now_ms).as_str());
            s
        },
    };
    Ok(
        Fields::new()
            .with("jsonrpc", text("2.0"))
            .with("method", text("chat"))
            .with("params", Fields::new().with("query", text(query)).table())
            .with("id", Value::Text(id))
            .table(),
    )
}

// ---------------------------------------------------------------------------
// Laws
// ---------------------------------------------------------------------------

/// The part that is kept of the start of a line is UTF-8, and no longer one within the limit is.
pub proof fn law_utf8_prefix(bytes: Seq<u8>, n: int, m: int)
    requires
        0 <= n <= bytes.len(),
    ensures
        0 <= utf8_prefix(bytes, n) <= n,
        valid_utf8(bytes.take(utf8_prefix(bytes, n))),
        utf8_prefix(bytes, n) < m <= n ==> !valid_utf8(bytes.take(m)),
    decreases n,
{
    if n <= 0 {
        assert(bytes.take(0) =~= Seq::<u8>::empty());
        assert(valid_utf8(Seq::<u8>::empty()));
    } else if !valid_utf8(bytes.take(n)) {
        law_utf8_prefix(bytes, n - 1, m);
    }
}

/// A line of up to 262144 bytes is taken as it is. Of a longer one the text is that of as much of
/// its first 262064 bytes as is UTF-8, and a note with the number of its bytes.
pub proof fn law_clamped(bytes: Seq<u8>, m: int)
    ensures
        bytes.len() <= 262144 ==> clamped(bytes) == utf8_lossy(bytes),
        bytes.len() > 262144 ==> exists|n: int|
            0 <= n <= 262064 && #[trigger] valid_utf8(bytes.take(n)) && (n < m <= 262064
                ==> !valid_utf8(bytes.take(m))) && clamped(bytes) == decode_utf8(bytes.take(n))
                + " … [truncated, "@ + decimal(bytes.len()) + " bytes total]"@,
{
    if bytes.len() > 262144 {
        let n = utf8_prefix(bytes, 262064);
        law_utf8_prefix(bytes, 262064, m);
        assert(valid_utf8(bytes.take(n)));
    }
}

/// A line is kept behind all others; of forty lines the oldest leaves for it, and of fewer none.
pub proof fn law_tail_with(tail: Seq<Seq<char>>, line: Seq<char>, i: int)
    ensures
        tail_with(tail, line).last() == line,
        tail.len() < 40 ==> tail_with(tail, line).len() == tail.len() + 1,
        tail.len() < 40 && 0 <= i < tail.len() ==> tail_with(tail, line)[i] == tail[i],
        tail.len() == 40 ==> tail_with(tail, line).len() == 40,
        tail.len() == 40 && 0 < i < tail.len() ==> tail_with(tail, line)[i - 1] == tail[i],
{
}

/// A file is a packaged sidecar where it has at least 524288 bytes.
pub proof fn law_packaged(n: u64)
    ensures
        is_packaged(Some(n)) <==> n >= 524288,
        !is_packaged(None),
{
}

/// A release starts the packaged sidecar wherever it is one, whether or not the script is there;
/// a debug build starts the script wherever it is there, unless the environment asks for the
/// packaged sidecar and it is one; and each starts the other where that is all there is.
pub proof fn law_spawn_mode(
    len: Option<u64>,
    value: Option<Seq<char>>,
    exe: Seq<char>,
    script: Seq<char>,
    v: Seq<char>,
    debug_build: bool,
    script_exists: bool,
)
    ensures
        is_packaged(len) ==> spawn_mode(false, len, value, script_exists, exe, script) == Ok::<
            SidecarSpawnMode,
            Seq<char>,
        >(SidecarSpawnMode::Packaged),
        is_packaged(len) && (v == "1"@ || v == "true"@ || v == "TRUE"@ || v == "yes"@ || v
            == "YES"@) ==> spawn_mode(true, len, Some(v), script_exists, exe, script) == Ok::<
            SidecarSpawnMode,
            Seq<char>,
        >(SidecarSpawnMode::Packaged),
        !(v == "1"@ || v == "true"@ || v == "TRUE"@ || v == "yes"@ || v == "YES"@) ==> spawn_mode(
            true,
            len,
            Some(v),
            true,
            exe,
            script,
        ) == Ok::<SidecarSpawnMode, Seq<char>>(SidecarSpawnMode::PythonDev),
        spawn_mode(true, len, None, true, exe, script) == Ok::<SidecarSpawnMode, Seq<char>>(
            SidecarSpawnMode::PythonDev,
        ),
        is_packaged(len) ==> spawn_mode(true, len, value, false, exe, script) == Ok::<
            SidecarSpawnMode,
            Seq<char>,
        >(SidecarSpawnMode::Packaged),
        !is_packaged(len) ==> spawn_mode(debug_build, len, value, true, exe, script) == Ok::<
            SidecarSpawnMode,
            Seq<char>,
        >(SidecarSpawnMode::PythonDev),
        !is_packaged(len) ==> spawn_mode(debug_build, len, value, false, exe, script) == Err::<
            SidecarSpawnMode,
            Seq<char>,
        >(
            "Sidecar binary missing or too small ("@ + exe + ") and entry script missing ("@
                + script + ")"@,
        ),
{
}

/// On Windows Python is told to write UTF-8, and elsewhere nothing.
pub proof fn law_python_env()
    ensures
        python_env(true).len() == 2,
        python_env(true)[0] == ("PYTHONUTF8"@, "1"@),
        python_env(true)[1] == ("PYTHONIOENCODING"@, "utf-8"@),
        python_env(false).len() == 0,
{
}

/// The complaint about a start tells what was started, and then the reason.
pub proof fn law_start_complaint(e: Seq<char>)
    ensures
        start_complaint(SidecarSpawnMode::Packaged, e) == "Could not start sidecar binary: "@ + e,
        start_complaint(SidecarSpawnMode::PythonDev, e) == "Could not start sidecar (python): "@
            + e,
{
}

/// The method of a message is the text under `method`, and the one under `type` only where that
/// is no text.
pub proof fn law_method(msg: Tree, m: Seq<char>, t: Seq<char>)
    ensures
        (msg.member("method"@) matches Some(v) && v.as_text() == Some(m)) ==> method_of(msg)
            == Some(m),
        !(msg.member("method"@) matches Some(v) && v.as_text() is Some) ==> {
            &&& (msg.member("type"@) matches Some(v) && v.as_text() == Some(t)) ==> method_of(msg)
                == Some(t)
            &&& !(msg.member("type"@) matches Some(v) && v.as_text() is Some) ==> method_of(
                msg,
            ) is None
        },
{
}

/// A message is a greeting where its method is `sidecar_hello` and it has parameters, or else
/// data; what it says is the first of the two that it has.
pub proof fn law_greeting(msg: Tree, d: Tree)
    ensures
        method_of(msg) != Some("sidecar_hello"@) ==> greeting(msg) is None,
        method_of(msg) == Some("sidecar_hello"@) ==> {
            &&& msg.member("params"@) == Some(d) ==> greeting(msg) == Some(d)
            &&& msg.member("params"@) is None ==> greeting(msg) == msg.member("data"@)
        },
{
}

/// A line that is no message is passed on as it is, and alone. Every message is passed on, and
/// before it one event is told just where it is a greeting.
pub proof fn law_line_responses(line: Seq<char>, m: Tree)
    ensures
        line_responses(line, None) == seq![Response::Raw(line)],
        line_responses(line, Some(m)).last() == Response::Data(m),
        greeting(m) is None ==> line_responses(line, Some(m)).len() == 1,
        greeting(m) is Some ==> line_responses(line, Some(m)).len() == 2 && line_responses(
            line,
            Some(m),
        )[0] == Response::Ready(m),
{
}

/// A greeting sets the version of the protocol to the number that it says, and to zero where it
/// says none; it sets the version of Hermes where it says one. Nothing else changes what is known
/// of the sidecar.
pub proof fn law_greeted(
    before: SidecarState,
    after: SidecarState,
    msg: Tree,
    d: Tree,
    n: u64,
    v: Seq<char>,
)
    ensures
        greeted(before, after, None) ==> after.protocol_version == before.protocol_version
            && after.hermes_version@ == before.hermes_version@,
        greeted(before, after, Some(msg)) ==> after.running == before.running && after.io
            == before.io,
        greeted(before, after, Some(msg)) && greeting(msg) is None ==> after.protocol_version
            == before.protocol_version && after.hermes_version@ == before.hermes_version@,
        greeted(before, after, Some(msg)) && greeting(msg) == Some(d) ==> {
            &&& (d.member("protocol_version"@) matches Some(t) && t.as_u64() == Some(n))
                ==> after.protocol_version == n as int % 0x1_0000_0000
            &&& d.member("protocol_version"@) == Some(Tree::Number(Number::PosInt(n))) && n
                <= u32::MAX ==> after.protocol_version == n
            &&& !(d.member("protocol_version"@) matches Some(t) && t.as_u64() is Some)
                ==> after.protocol_version == 0
            &&& (d.member("hermes_version"@) matches Some(t) && t.as_text() == Some(v))
                ==> after.hermes_version@ == v
            &&& !(d.member("hermes_version"@) matches Some(t) && t.as_text() is Some)
                ==> after.hermes_version@ == before.hermes_version@
        },
{
}

/// A line of the error output is logged, and then passed on.
pub proof fn law_error_responses(line: Seq<char>)
    ensures
        error_responses(line).len() == 2,
        error_responses(line)[0] == Response::Log(line),
        error_responses(line)[1] == Response::Error(line),
{
}

/// The end of the sidecar is told with its exit code and its signal, each null where there is
/// none. Where nobody asked for it, it is told as a failure next, with the exit code, zero where
/// that is negative, the signal, and the last lines of the error output.
pub proof fn law_end_responses(
    tail: Seq<Seq<char>>,
    asked: bool,
    code: Option<i32>,
    signal: Option<i32>,
    c: i32,
)
    ensures
        ({
            let r = end_responses(tail, asked, code, signal);
            &&& r[0] matches Response::Terminated(t) && t is Table && t.member("code"@) == Some(
                match code {
                    Some(n) => Tree::Number(int_number(n as i64)),
                    None => Tree::Null,
                },
            ) && t.member("signal"@) == Some(
                match signal {
                    Some(n) => Tree::Number(int_number(n as i64)),
                    None => Tree::Null,
                },
            )
            &&& asked ==> r.len() == 1
            &&& !asked ==> r.len() == 2 && (r[1] matches Response::Fatal(f, s, l, reason) && s
                == signal && l == tail && reason == "sidecar_exited_unexpectedly"@ && (code is None
                ==> f is None) && (code == Some(c) && c >= 0 ==> f == Some(c as u32)) && (code
                == Some(c) && c < 0 ==> f == Some(0u32)))
        }),
{
    let e = exit_tree(code, signal)->Table_0;
    reveal_strlit("code");
    reveal_strlit("signal");
    assert("code"@.len() == 4);
    assert("signal"@.len() == 6);
    lemma_key_index_is(e, "code"@, 0);
    lemma_key_index_is(e, "signal"@, 1);
}

/// A sidecar that is to end is looked for every fifty milliseconds, and killed where it still runs
/// after five seconds.
pub proof fn law_shutdown_step(waited_ms: int)
    ensures
        next_shutdown_step(false, waited_ms) == ShutdownStep::Done,
        waited_ms < 5000 ==> next_shutdown_step(true, waited_ms) == ShutdownStep::Wait(50),
        waited_ms >= 5000 ==> next_shutdown_step(true, waited_ms) == ShutdownStep::Kill,
{
}

/// A process that is to be killed and still there is killed at once, and once more where it is
/// there half a second later; it is looked for every fifty milliseconds.
pub proof fn law_kill_step(tries: int, waited_ms: int)
    ensures
        next_kill_step(false, tries, waited_ms) == KillStep::Done,
        next_kill_step(true, 0, waited_ms) == KillStep::Kill,
        waited_ms < 500 ==> next_kill_step(true, 1, waited_ms) == KillStep::Wait(50),
        waited_ms >= 500 ==> next_kill_step(true, 1, waited_ms) == KillStep::Kill,
        tries >= 2 ==> next_kill_step(true, tries, waited_ms) == KillStep::Done,
{
}

/// The agent is started from its packaged file where that has more than ten million bytes, and
/// else by its script where that is there.
pub proof fn law_agent_mode(n: u64, script_exists: bool, script: Seq<char>)
    ensures
        n > 10000000 ==> agent_mode(Some(n), script_exists, script) == Ok::<
            SidecarSpawnMode,
            Seq<char>,
        >(SidecarSpawnMode::Packaged),
        n <= 10000000 ==> agent_mode(Some(n), true, script) == Ok::<SidecarSpawnMode, Seq<char>>(
            SidecarSpawnMode::PythonDev,
        ),
        n <= 10000000 ==> agent_mode(Some(n), false, script) == Err::<SidecarSpawnMode, Seq<char>>(
            "Sidecar binary not found and entry script missing: "@ + script,
        ),
        agent_mode(None, true, script) == Ok::<SidecarSpawnMode, Seq<char>>(
            SidecarSpawnMode::PythonDev,
        ),
        agent_mode(None, false, script) == Err::<SidecarSpawnMode, Seq<char>>(
            "Sidecar binary not found and entry script missing: "@ + script,
        ),
{
}

/// A question is put to an agent that runs as a call of `chat` with the question as it is, under
/// the identifier that is given, or else under one made of the time; to one that does not run
/// none is put.
pub proof fn law_agent_query(query: Seq<char>, id: Option<Seq<char>>, s: Seq<char>, now_ms: nat)
    ensures
        agent_query(false, query, id, now_ms) == Err::<Tree, Seq<char>>(
            "Sidecar agent is not started"@,
        ),
        agent_query(true, query, id, now_ms) matches Ok(t) && {
            &&& t is Table
            &&& t.member("jsonrpc"@) == Some(Tree::Text("2.0"@))
            &&& t.member("method"@) == Some(Tree::Text("chat"@))
            &&& section_member(t, "params"@, "query"@) == Some(Tree::Text(query))
            &&& id == Some(s) ==> t.member("id"@) == Some(Tree::Text(s))
            &&& id is None ==> t.member("id"@) == Some(Tree::Text("q_"@ + decimal(now_ms)))
        },
{
    let e = agent_query(true, query, id, now_ms)->Ok_0->Table_0;
    reveal_strlit("jsonrpc");
    reveal_strlit("method");
    reveal_strlit("params");
    reveal_strlit("id");
    assert("jsonrpc"@.len() == 7);
    assert("method"@.len() == 6);
    assert("params"@.len() == 6);
    assert("id"@.len() == 2);
    assert("method"@[0] != "params"@[0]);
    lemma_key_index_is(e, "jsonrpc"@, 0);
    lemma_key_index_is(e, "method"@, 1);
    lemma_key_index_is(e, "params"@, 2);
    lemma_key_index_is(e, "id"@, 3);
    let p = e[2].1->Table_0;
    lemma_key_index_is(p, "query"@, 0);
}

/// What is done is what the reaction says, with what it holds.
pub proof fn law_reaction(v: Value, s: String, p: SidecarFatalPayload)
    ensures
        Reaction::Ready(v)@ == Response::Ready(v@),
        Reaction::Data(v)@ == Response::Data(v@),
        Reaction::Raw(s)@ == Response::Raw(s@),
        Reaction::Log(s)@ == Response::Log(s@),
        Reaction::Error(s)@ == Response::Error(s@),
        Reaction::Terminated(v)@ == Response::Terminated(v@),
        Reaction::Fatal(p)@ matches Response::Fatal(code, signal, lines, reason) && code
            == p.exit_code && signal == p.signal && lines.len() == p.last_stderr_lines@.len()
            && reason == p.reason@,
{
}

/// The line that asks the sidecar to end, and the file names of the packaged one.
pub proof fn law_shutdown_line()
    ensures
        SHUTDOWN_CONTROL_JSON@ == "{\"type\":\"control\",\"command\":\"shutdown\"}"@,
        exe_name(true) == "hermes_agent-x86_64-pc-windows-msvc.exe"@,
        exe_name(false) == "hermes_agent-x86_64-unknown-linux-gnu"@,
{
}

} // verus!
