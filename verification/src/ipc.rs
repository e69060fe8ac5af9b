//! Talking to the Python helpers: which interpreters are tried, what is sent to a helper, and
//! what its reply comes to. The requests about scheduled jobs are here too.
use vstd::prelude::*;
use vstd::string::*;

use crate::text::{lossy, texts, trim, trimmed, utf8_lossy};
use crate::value::{
    body_of, field, fields, law_put_get, law_put_keeps, lemma_key_index_is, lemma_table_tree,
    opt_str, put, request_body, table_put, text, tree_result, Fields, Tree, Value,
};

verus! {

broadcast use lemma_table_tree;

/// The helper for scheduled jobs.
pub const CRON_HELPER: &'static str = "cron_ipc_helper.py";

/// The helper for profiles.
pub const PROFILES_HELPER: &'static str = "profiles_ipc_helper.py";

/// The helper for skills.
pub const SKILLS_HELPER: &'static str = "skills_ipc_helper.py";

/// The helper that tells of the model.
pub const MODEL_INFO_HELPER: &'static str = "model_info_ipc_helper.py";

// ---------------------------------------------------------------------------
// What is tried
// ---------------------------------------------------------------------------

/// An interpreter and the arguments with which it runs a helper.
#[derive(Debug, PartialEq, Eq)]
pub struct Attempt {
    pub program: String,
    pub args: Vec<String>,
}

/// An attempt, by its contents.
pub open spec fn attempt(a: Attempt) -> (Seq<char>, Seq<Seq<char>>) {
    (a.program@, texts(a.args@))
}

/// Attempts, by their contents.
pub open spec fn attempts(v: Seq<Attempt>) -> Seq<(Seq<char>, Seq<Seq<char>>)> {
    Seq::new(v.len(), |i: int| attempt(v[i]))
}

/// The interpreters that are tried: the one that `HERMES_PYTHON` names, where it names one,
/// then `python`, on Windows the launcher, and last `python3`.
pub open spec fn interpreters(script: Seq<char>, named: Option<Seq<char>>, windows: bool) -> Seq<
    (Seq<char>, Seq<Seq<char>>),
> {
    let plain = seq!["-u"@, script];
    let first = match named {
        Some(p) => if trim(p).len() > 0 {
            seq![(trim(p), plain)]
        } else {
            Seq::empty()
        },
        None => Seq::empty(),
    };
    let launcher = if windows {
        seq![("py"@, seq!["-3"@, "-u"@, script])]
    } else {
        Seq::empty()
    };
    first + seq![("python"@, plain)] + launcher + seq![("python3"@, plain)]
}

/// The arguments that run a script with its output unbuffered.
fn script_args(script: &str) -> (r: Vec<String>)
    ensures
        texts(r@) == seq!["-u"@, script@],
{
    let r: Vec<String> = vec!["-u".to_owned(), script.to_owned()];
    assert(texts(r@) =~= seq!["-u"@, script@]);
    r
}

/// The interpreters that are tried, from the value of `HERMES_PYTHON`.
pub fn python_attempts(script: &str, named: Option<&str>, windows: bool) -> (r: Vec<Attempt>)
    ensures
        attempts(r@) == interpreters(script@, opt_str(named), windows),
        r@.len() > 0,
{
    let mut out: Vec<Attempt> = Vec::new();
    if let Some(p) = named {
        let p = trimmed(p);
        if p.unicode_len() > 0 {
            out.push(Attempt { program: p.to_owned(), args: script_args(script) });
        }
    }
    out.push(Attempt { program: "python".to_owned(), args: script_args(script) });
    if windows {
        let args: Vec<String> = vec!["-3".to_owned(), "-u".to_owned(), script.to_owned()];
        assert(texts(args@) =~= seq!["-3"@, "-u"@, script@]);
        out.push(Attempt { program: "py".to_owned(), args });
    }
    out.push(Attempt { program: "python3".to_owned(), args: script_args(script) });
    assert(attempts(out@) =~= interpreters(script@, opt_str(named), windows));
    out
}

/// The complaint about a helper that is missing.
pub fn missing_helper(script: &str) -> (r: String)
    ensures
        r@ == "Python-helper ontbreekt ("@ + script@
            + "). Vereist hermes-agent checkout met HermesOS/scripts."@,
{
    let mut r = "Python-helper ontbreekt (".to_owned();
    r.append(script);
    r.append("). Vereist hermes-agent checkout met HermesOS/scripts.");
    r
}

/// What is sent to a helper: the payload, with the home of the data in it where the helper
/// needs that; only a table can take it.
pub open spec fn sent(payload: Tree, home: Option<Seq<char>>) -> Result<Tree, Seq<char>> {
    match home {
        Some(h) => match payload {
            Tree::Table(e) => Ok(Tree::Table(put(e, "hermes_home"@, Tree::Text(h)))),
            _ => Err("ipc payload moet een JSON-object zijn"@),
        },
        None => Ok(payload),
    }
}

/// What is sent to a helper.
pub fn helper_payload(payload: Value, home: Option<&str>) -> (r: Result<Value, String>)
    ensures
        tree_result(r) == sent(payload@, opt_str(home)),
{
    match home {
        Some(h) => match payload {
            Value::Table(e) => {
                let mut e = e;
                table_put(&mut e, "hermes_home", text(h));
                Ok(Value::Table(e))
            },
            _ => Err("ipc payload moet een JSON-object zijn".to_owned()),
        },
        None => Ok(payload),
    }
}

// ---------------------------------------------------------------------------
// What comes back
// ---------------------------------------------------------------------------

/// The text that a helper wrote, without white space around it.
pub fn output_text(bytes: &[u8]) -> (r: String)
    ensures
        r@ == trim(utf8_lossy(bytes@)),
        vstd::utf8::valid_utf8(bytes@) ==> r@ == trim(vstd::utf8::decode_utf8(bytes@)),
{
    trimmed(lossy(bytes).as_str()).to_owned()
}

/// What a reply comes to: its data where it says that all went well, and else its complaint.
pub open spec fn reply(parsed: Tree) -> Result<Tree, Seq<char>> {
    if parsed.flag_or("ok"@, false) {
        Ok(
            match parsed.member("data"@) {
                Some(d) => d,
                None => Tree::Null,
            },
        )
    } else {
        Err(parsed.text_or("error"@, "ipc mislukt"@))
    }
}

/// What a reply comes to.
pub fn read_reply(parsed: &Value) -> (r: Result<Value, String>)
    ensures
        tree_result(r) == reply(parsed@),
{
    if parsed.flag_or("ok", false) {
        match parsed.member("data") {
            Some(d) => Ok(d.copy()),
            None => Ok(Value::Null),
        }
    } else {
        Err(parsed.text_or("error", "ipc mislukt"))
    }
}

/// What came of an attempt.
pub enum IpcEvent {
    /// The interpreter did not start.
    NotStarted(String),
    /// The payload could not be written to the helper.
    NotSent(String),
    /// The end of the helper could not be awaited.
    NotAwaited(String),
    /// The helper ended; what it wrote, and what its output is as a document, or why it is none.
    Ended(String, String, Result<Value, String>),
}

/// What came of an attempt, by its contents.
pub enum Outcome {
    NotStarted(Seq<char>),
    NotSent(Seq<char>),
    NotAwaited(Seq<char>),
    Ended(Seq<char>, Seq<char>, Result<Tree, Seq<char>>),
}

impl View for IpcEvent {
    type V = Outcome;

    open spec fn view(&self) -> Outcome {
        match self {
            IpcEvent::NotStarted(e) => Outcome::NotStarted(e@),
            IpcEvent::NotSent(e) => Outcome::NotSent(e@),
            IpcEvent::NotAwaited(e) => Outcome::NotAwaited(e@),
            IpcEvent::Ended(out, err, parsed) => Outcome::Ended(out@, err@, tree_result(*parsed)),
        }
    }
}

/// What an attempt decides: the result, or that the next interpreter is tried, with the
/// complaint that is left if there is none.
pub open spec fn decided(script: Seq<char>, program: Seq<char>, o: Outcome) -> Result<
    Result<Tree, Seq<char>>,
    Seq<char>,
> {
    match o {
        Outcome::NotStarted(e) => Err(program + ": "@ + e),
        Outcome::NotAwaited(e) => Err(e),
        Outcome::NotSent(e) => Ok(Err(e)),
        Outcome::Ended(out, err, parsed) => Ok(
            match parsed {
                Ok(t) => reply(t),
                Err(e) => Err(
                    script + ": ongeldige JSON ("@ + e + "). stderr="@ + err + " stdout="@ + out,
                ),
            },
        ),
    }
}

/// A call of a helper that goes on until an attempt decides.
pub struct HelperCall {
    script: String,
    attempts: Vec<Attempt>,
    next: usize,
}

impl HelperCall {
    /// The name of the helper.
    pub closed spec fn script(&self) -> Seq<char> {
        self.script@
    }

    /// The attempts that are left, the next one first.
    pub closed spec fn left(&self) -> Seq<(Seq<char>, Seq<Seq<char>>)> {
        attempts(self.attempts@).skip(self.next as int)
    }

    /// There is an attempt left.
    #[verifier::type_invariant]
    spec fn wf(self) -> bool {
        self.next < self.attempts@.len()
    }

    /// A call of a helper by attempts that are not yet made.
    pub fn new(script: &str, list: Vec<Attempt>) -> (r: HelperCall)
        requires
            list@.len() > 0,
        ensures
            r.script() == script@,
            r.left() == attempts(list@),
    {
        let r = HelperCall { script: script.to_owned(), attempts: list, next: 0 };
        assert(r.left() =~= attempts(list@));
        r
    }

    /// The attempt to make next.
    pub fn attempt(&self) -> (r: &Attempt)
        ensures
            self.left().len() > 0,
            attempt(*r) == self.left()[0],
    {
        proof {
            use_type_invariant(self);
        }
        &self.attempts[self.next]
    }

    /// What the attempt has decided: the result of the call, or nothing where the next
    /// attempt is to be made.
    pub fn advance(&mut self, event: IpcEvent) -> (r: Option<Result<Value, String>>)
        ensures
            old(self).left().len() > 0,
            final(self).script() == old(self).script(),
            match decided(old(self).script(), old(self).left()[0].0, event@) {
                Ok(result) => r matches Some(x) && tree_result(x) == result,
                Err(e) => if old(self).left().len() == 1 {
                    r matches Some(x) && tree_result(x) == Err::<Tree, Seq<char>>(e)
                } else {
                    r is None && final(self).left() == old(
                        self,
                    ).left().drop_first()
                },
            },
    {
        proof {
            use_type_invariant(&*self);
        }
        let ghost before = self.left();
        let complaint = match event {
            IpcEvent::NotStarted(e) => {
                let mut c = self.attempts[self.next].program.clone();
                c.append(": ");
                c.append(e.as_str());
                c
            },
            IpcEvent::NotAwaited(e) => e,
            IpcEvent::NotSent(e) => {
                return Some(Err(e));
            },
            IpcEvent::Ended(out, err, parsed) => {
                return Some(
                    match parsed {
                        Ok(v) => read_reply(&v),
                        Err(e) => {
                            let mut c = self.script.clone();
                            c.append(": ongeldige JSON (");
                            c.append(e.as_str());
                            c.append("). stderr=");
                            c.append(err.as_str());
                            c.append(" stdout=");
                            c.append(out.as_str());
                            Err(c)
                        },
                    },
                );
            },
        };
        if self.attempts.len() - self.next == 1 {
            return Some(Err(complaint));
        }
        self.next = self.next + 1;
        assert(self.left() =~= before.drop_first());
        None
    }
}

/// The result of a call, where `outcomes` is what comes of its attempts, one after the other.
pub open spec fn call_result(
    script: Seq<char>,
    programs: Seq<Seq<char>>,
    outcomes: Seq<Outcome>,
) -> Result<Tree, Seq<char>>
    decreases programs.len(),
{
    match decided(script, programs[0], outcomes[0]) {
        Ok(result) => result,
        Err(e) => if programs.len() <= 1 {
            Err(e)
        } else {
            call_result(script, programs.drop_first(), outcomes.drop_first())
        },
    }
}

/// The first attempt that decides gives the result of the call, whatever would have come of the
/// others.
pub proof fn law_first_decision_counts(
    script: Seq<char>,
    programs: Seq<Seq<char>>,
    outcomes: Seq<Outcome>,
    n: int,
)
    requires
        0 <= n < programs.len() == outcomes.len(),
        forall|i: int| 0 <= i < n ==> decided(script, programs[i], #[trigger] outcomes[i]) is Err,
        decided(script, programs[n], outcomes[n]) is Ok,
    ensures
        Ok::<Result<Tree, Seq<char>>, Seq<char>>(call_result(script, programs, outcomes))
            == decided(script, programs[n], outcomes[n]),
    decreases n,
{
    if n > 0 {
        let p = programs.drop_first();
        let o = outcomes.drop_first();
        assert(decided(script, programs[0], outcomes[0]) is Err);
        assert forall|i: int| 0 <= i < n - 1 implies decided(
            script,
            p[i],
            #[trigger] o[i],
        ) is Err by {
            assert(o[i] == outcomes[i + 1]);
        }
        law_first_decision_counts(script, p, o, n - 1);
    }
}

/// Where no attempt decides, the complaint of the last one is the result.
pub proof fn law_last_complaint_counts(
    script: Seq<char>,
    programs: Seq<Seq<char>>,
    outcomes: Seq<Outcome>,
)
    requires
        0 < programs.len() == outcomes.len(),
        forall|i: int|
            0 <= i < programs.len() ==> decided(script, programs[i], #[trigger] outcomes[i]) is Err,
    ensures
        call_result(script, programs, outcomes) == Err::<Tree, Seq<char>>(
            decided(script, programs.last(), outcomes.last())->Err_0,
        ),
    decreases programs.len(),
{
    assert(decided(script, programs[0], outcomes[0]) is Err);
    if programs.len() > 1 {
        let p = programs.drop_first();
        let o = outcomes.drop_first();
        assert forall|i: int| 0 <= i < p.len() implies decided(
            script,
            p[i],
            #[trigger] o[i],
        ) is Err by {
            assert(o[i] == outcomes[i + 1]);
        }
        law_last_complaint_counts(script, p, o);
    }
}

// ---------------------------------------------------------------------------
// Scheduled jobs
// ---------------------------------------------------------------------------

/// The request for all jobs, those that are switched off included.
pub fn get_cron_jobs() -> (r: Value)
    ensures
        r@ == Tree::Table(
            fields()
                .push(field("op"@, Tree::Text("list"@)))
                .push(field("include_disabled"@, Tree::Bool(true))),
        ),
{
    Fields::new()
        .with("op", text("list"))
        .with("include_disabled", Value::Bool(true))
        .table()
}

/// The request for a new job: its prompt and its schedule, its name where it is not empty, and
/// where it is delivered, which is `local` where nothing is said.
pub open spec fn new_job(payload: Tree) -> Tree {
    let body = request_body(payload);
    Tree::Table(
        fields()
            .push(field("op"@, Tree::Text("create"@)))
            .push(field("prompt"@, Tree::Text(body.text_or("prompt"@, ""@))))
            .push(field("schedule"@, Tree::Text(body.text_or("schedule"@, ""@))))
            .push(field(
                "name"@,
                match body.member_text("name"@) {
                    Some(s) => if s.len() > 0 { Tree::Text(s) } else { Tree::Null },
                    None => Tree::Null,
                },
            ))
            .push(field("deliver"@, Tree::Text(body.text_or("deliver"@, "local"@)))),
    )
}

/// The request for a new job.
pub fn create_cron_job(payload: &Value) -> (r: Value)
    ensures
        r@ == new_job(payload@),
{
    let body = body_of(payload);
    let name = match body.member_text("name") {
        Some(s) => if s.unicode_len() > 0 {
            text(s)
        } else {
            Value::Null
        },
        None => Value::Null,
    };
    Fields::new()
        .with("op", text("create"))
        .with("prompt", Value::Text(body.text_or("prompt", "")))
        .with("schedule", Value::Text(body.text_or("schedule", "")))
        .with("name", name)
        .with("deliver", Value::Text(body.text_or("deliver", "local")))
        .table()
}

/// A request about a job, which is named by its identifier without white space around it.
pub open spec fn job_request(op: Seq<char>, job_id: Seq<char>) -> Tree {
    Tree::Table(
        fields()
            .push(field("op"@, Tree::Text(op)))
            .push(field("job_id"@, Tree::Text(trim(job_id)))),
    )
}

/// A request about a job.
fn about_job(op: &str, job_id: &str) -> (r: Value)
    ensures
        r@ == job_request(op@, job_id@),
{
    Fields::new()
        .with("op", text(op))
        .with("job_id", text(trimmed(job_id)))
        .table()
}

/// The request to pause a job.
pub fn pause_cron_job(job_id: &str) -> (r: Value)
    ensures
        r@ == job_request("pause"@, job_id@),
{
    about_job("pause", job_id)
}

/// The request to let a job go on.
pub fn resume_cron_job(job_id: &str) -> (r: Value)
    ensures
        r@ == job_request("resume"@, job_id@),
{
    about_job("resume", job_id)
}

/// The request to run a job now.
pub fn trigger_cron_job(job_id: &str) -> (r: Value)
    ensures
        r@ == job_request("trigger"@, job_id@),
{
    about_job("trigger", job_id)
}

/// The request to delete a job.
pub fn delete_cron_job(job_id: &str) -> (r: Value)
    ensures
        r@ == job_request("delete"@, job_id@),
{
    about_job("delete", job_id)
}

// ---------------------------------------------------------------------------
// Laws
// ---------------------------------------------------------------------------

/// The interpreter that is named comes first, called by its name without white space around it;
/// `python` comes before `python3`, which is last, and on Windows the launcher between them. Each
/// runs the script with its output unbuffered.
pub proof fn law_interpreters(script: Seq<char>, p: Seq<char>, windows: bool)
    ensures
        ({
            let plain = seq!["-u"@, script];
            let usual = interpreters(script, None, windows);
            &&& usual.len() == if windows { 3int } else { 2int }
            &&& usual[0] == ("python"@, plain)
            &&& usual.last() == ("python3"@, plain)
            &&& windows ==> usual[1] == ("py"@, seq!["-3"@, "-u"@, script])
            &&& trim(p).len() > 0 ==> interpreters(script, Some(p), windows) == seq![
                (trim(p), plain),
            ] + usual
            &&& trim(p).len() == 0 ==> interpreters(script, Some(p), windows) == usual
        }),
{
    let usual = interpreters(script, None, windows);
    let named = interpreters(script, Some(p), windows);
    if trim(p).len() > 0 {
        assert(named =~= seq![(trim(p), seq!["-u"@, script])] + usual);
    } else {
        assert(named =~= usual);
    }
}

/// What is sent to a helper that needs no home is the payload. With a home only a table can be
/// sent; it holds the home, and all else that the payload holds.
pub proof fn law_sent(payload: Tree, home: Seq<char>, k: Seq<char>)
    ensures
        sent(payload, None) == Ok::<Tree, Seq<char>>(payload),
        !(payload is Table) ==> sent(payload, Some(home)) == Err::<Tree, Seq<char>>(
            "ipc payload moet een JSON-object zijn"@,
        ),
        payload is Table ==> (sent(payload, Some(home)) matches Ok(t) && {
            &&& t is Table
            &&& t.member("hermes_home"@) == Some(Tree::Text(home))
            &&& k != "hermes_home"@ ==> t.member(k) == payload.member(k)
        }),
{
    if payload is Table {
        let e = payload->Table_0;
        law_put_get(e, "hermes_home"@, Tree::Text(home));
        if k != "hermes_home"@ {
            law_put_keeps(e, "hermes_home"@, Tree::Text(home), k);
        }
    }
}

/// A reply that says that all went well comes to its data, null where it has none; any other
/// comes to its complaint, or to a general one where it has none that is a text.
pub proof fn law_reply(parsed: Tree, d: Tree, e: Seq<char>)
    ensures
        (parsed.member("ok"@) matches Some(v) && v.as_bool() == Some(true)) ==> {
            &&& parsed.member("data"@) == Some(d) ==> reply(parsed) == Ok::<Tree, Seq<char>>(d)
            &&& parsed.member("data"@) is None ==> reply(parsed) == Ok::<Tree, Seq<char>>(
                Tree::Null,
            )
        },
        !(parsed.member("ok"@) matches Some(v) && v.as_bool() == Some(true)) ==> {
            &&& (parsed.member("error"@) matches Some(t) && t.as_text() == Some(e)) ==> reply(
                parsed,
            ) == Err::<Tree, Seq<char>>(e)
            &&& !(parsed.member("error"@) matches Some(t) && t.as_text() is Some) ==> reply(parsed)
                == Err::<Tree, Seq<char>>("ipc mislukt"@)
        },
{
}

/// The next interpreter is tried just where one did not start or its end could not be awaited;
/// where the payload could not be written, or the helper ended, the call is over.
pub proof fn law_decided(
    script: Seq<char>,
    program: Seq<char>,
    e: Seq<char>,
    out: Seq<char>,
    err: Seq<char>,
    t: Tree,
)
    ensures
        decided(script, program, Outcome::NotStarted(e)) == Err::<
            Result<Tree, Seq<char>>,
            Seq<char>,
        >(program + ": "@ + e),
        decided(script, program, Outcome::NotAwaited(e)) == Err::<
            Result<Tree, Seq<char>>,
            Seq<char>,
        >(e),
        decided(script, program, Outcome::NotSent(e)) == Ok::<Result<Tree, Seq<char>>, Seq<char>>(
            Err(e),
        ),
        decided(script, program, Outcome::Ended(out, err, Ok(t))) == Ok::<
            Result<Tree, Seq<char>>,
            Seq<char>,
        >(reply(t)),
        decided(script, program, Outcome::Ended(out, err, Err(e))) == Ok::<
            Result<Tree, Seq<char>>,
            Seq<char>,
        >(Err(script + ": ongeldige JSON ("@ + e + "). stderr="@ + err + " stdout="@ + out)),
{
}

/// The request for a new job holds what the body says of its prompt, its schedule, its name and
/// where it is delivered. A name that is empty or missing is null, and a job of which it is not
/// said where it is delivered is local.
pub proof fn law_new_job(payload: Tree, s: Seq<char>)
    ensures
        ({
            let body = request_body(payload);
            let t = new_job(payload);
            &&& t is Table
            &&& t.member("op"@) == Some(Tree::Text("create"@))
            &&& (body.member("prompt"@) matches Some(v) && v.as_text() == Some(s)) ==> t.member(
                "prompt"@,
            ) == Some(Tree::Text(s))
            &&& !(body.member("prompt"@) matches Some(v) && v.as_text() is Some) ==> t.member(
                "prompt"@,
            ) == Some(Tree::Text(Seq::empty()))
            &&& (body.member("schedule"@) matches Some(v) && v.as_text() == Some(s)) ==> t.member(
                "schedule"@,
            ) == Some(Tree::Text(s))
            &&& !(body.member("schedule"@) matches Some(v) && v.as_text() is Some) ==> t.member(
                "schedule"@,
            ) == Some(Tree::Text(Seq::empty()))
            &&& (body.member("name"@) matches Some(v) && v.as_text() == Some(s)) && s.len() > 0
                ==> t.member("name"@) == Some(Tree::Text(s))
            &&& !(body.member("name"@) matches Some(v) && (v.as_text() matches Some(x) && x.len()
                > 0)) ==> t.member("name"@) == Some(Tree::Null)
            &&& (body.member("deliver"@) matches Some(v) && v.as_text() == Some(s)) ==> t.member(
                "deliver"@,
            ) == Some(Tree::Text(s))
            &&& !(body.member("deliver"@) matches Some(v) && v.as_text() is Some) ==> t.member(
                "deliver"@,
            ) == Some(Tree::Text("local"@))
        }),
{
    reveal_strlit("");
    assert(""@ =~= Seq::<char>::empty());
    let e = new_job(payload)->Table_0;
    reveal_strlit("op");
    reveal_strlit("prompt");
    reveal_strlit("schedule");
    reveal_strlit("name");
    reveal_strlit("deliver");
    assert("op"@.len() == 2);
    assert("prompt"@.len() == 6);
    assert("schedule"@.len() == 8);
    assert("name"@.len() == 4);
    assert("deliver"@.len() == 7);
    lemma_key_index_is(e, "op"@, 0);
    lemma_key_index_is(e, "prompt"@, 1);
    lemma_key_index_is(e, "schedule"@, 2);
    lemma_key_index_is(e, "name"@, 3);
    lemma_key_index_is(e, "deliver"@, 4);
}

/// A request about a job holds what is to be done and the identifier of the job without white
/// space around it.
pub proof fn law_job_request(op: Seq<char>, job_id: Seq<char>)
    ensures
        job_request(op, job_id) is Table,
        job_request(op, job_id).member("op"@) == Some(Tree::Text(op)),
        job_request(op, job_id).member("job_id"@) == Some(Tree::Text(trim(job_id))),
{
    let e = job_request(op, job_id)->Table_0;
    reveal_strlit("op");
    reveal_strlit("job_id");
    assert("op"@.len() == 2);
    assert("job_id"@.len() == 6);
    lemma_key_index_is(e, "op"@, 0);
    lemma_key_index_is(e, "job_id"@, 1);
}

/// What came of an attempt is what the event says, with what it holds.
pub proof fn law_event(e: String, out: String, err: String, v: Value)
    ensures
        IpcEvent::NotStarted(e)@ == Outcome::NotStarted(e@),
        IpcEvent::NotSent(e)@ == Outcome::NotSent(e@),
        IpcEvent::NotAwaited(e)@ == Outcome::NotAwaited(e@),
        IpcEvent::Ended(out, err, Ok(v))@ == Outcome::Ended(out@, err@, Ok(v@)),
        IpcEvent::Ended(out, err, Err(e))@ == Outcome::Ended(out@, err@, Err(e@)),
{
}

/// The names of the helpers.
pub proof fn law_helpers()
    ensures
        CRON_HELPER@ == "cron_ipc_helper.py"@,
        PROFILES_HELPER@ == "profiles_ipc_helper.py"@,
        SKILLS_HELPER@ == "skills_ipc_helper.py"@,
        MODEL_INFO_HELPER@ == "model_info_ipc_helper.py"@,
{
}

} // verus!
