//! What the program tells of itself: the sidecar, the configuration, the database, and the
//! tools.
use vstd::prelude::*;
use vstd::string::*;

use crate::sidecar::SidecarState;
use crate::text::{chars_of, texts};
use crate::value::{
    field, fields, int_number, integer, lemma_key_index_is, lemma_list_tree, lemma_table_tree,
    opt_ref, section_member, text, trees, Fields, Number, Tree, Value,
};

verus! {

broadcast use {lemma_list_tree, lemma_table_tree};

/// What is told of the sidecar.
#[derive(Debug, PartialEq, Eq)]
pub struct SidecarStatus {
    pub running: bool,
    pub protocol_version: u32,
    pub hermes_version: String,
}

/// What is told of the sidecar.
pub fn get_sidecar_status(state: &SidecarState) -> (r: SidecarStatus)
    ensures
        r.running == state.running,
        r.protocol_version == state.protocol_version,
        r.hermes_version@ == state.hermes_version@,
{
    SidecarStatus {
        running: state.running,
        protocol_version: state.protocol_version,
        hermes_version: state.hermes_version.clone(),
    }
}

/// What came of opening the session database.
pub enum DbAccess {
    Missing,
    Accessible,
    Failed(String),
}

/// What is told of the session database.
pub open spec fn db_text(db: DbAccess) -> Seq<char> {
    match db {
        DbAccess::Missing => "missing"@,
        DbAccess::Accessible => "accessible"@,
        DbAccess::Failed(e) => "error: "@ + e@,
    }
}

/// What is told of the session database.
pub fn db_status(db: &DbAccess) -> (r: String)
    ensures
        r@ == db_text(*db),
{
    match db {
        DbAccess::Missing => "missing".to_owned(),
        DbAccess::Accessible => "accessible".to_owned(),
        DbAccess::Failed(e) => {
            let mut s = "error: ".to_owned();
            s.append(e.as_str());
            s
        },
    }
}

/// The report for those who look for a fault.
pub open spec fn diagnostics(
    os: Seq<char>,
    arch: Seq<char>,
    home: Seq<char>,
    config_exists: bool,
    db: DbAccess,
    sidecar: SidecarStatus,
) -> Tree {
    Tree::Table(
        fields()
            .push(field(
                "system"@,
                Tree::Table(
                    fields()
                        .push(field("os"@, Tree::Text(os)))
                        .push(field("arch"@, Tree::Text(arch)))
                        .push(field("tauri_version"@, Tree::Text("2.0.0"@))),
                ),
            ))
            .push(field(
                "hermes"@,
                Tree::Table(
                    fields()
                        .push(field("home"@, Tree::Text(home)))
                        .push(field("config_exists"@, Tree::Bool(config_exists)))
                        .push(field("db_status"@, Tree::Text(db_text(db)))),
                ),
            ))
            .push(field(
                "sidecar"@,
                Tree::Table(
                    fields()
                        .push(field("running"@, Tree::Bool(sidecar.running)))
                        .push(field(
                            "protocol_version"@,
                            Tree::Number(Number::PosInt(sidecar.protocol_version as u64)),
                        ))
                        .push(field("hermes_version"@, Tree::Text(sidecar.hermes_version@))),
                ),
            )),
    )
}

/// The report for those who look for a fault.
pub fn get_diagnostics(
    os: &str,
    arch: &str,
    home: &str,
    config_exists: bool,
    db: &DbAccess,
    sidecar: &SidecarStatus,
) -> (r: Value)
    ensures
        r@ == diagnostics(os@, arch@, home@, config_exists, *db, *sidecar),
{
    let system = Fields::new()
        .with("os", text(os))
        .with("arch", text(arch))
        .with("tauri_version", text("2.0.0"))
        .table();
    let hermes = Fields::new()
        .with("home", text(home))
        .with("config_exists", Value::Bool(config_exists))
        .with("db_status", Value::Text(db_status(db)))
        .table();
    let process = Fields::new()
        .with("running", Value::Bool(sidecar.running))
        .with("protocol_version", Value::Number(Number::PosInt(sidecar.protocol_version as u64)))
        .with("hermes_version", text(sidecar.hermes_version.as_str()))
        .table();
    Fields::new()
        .with("system", system)
        .with("hermes", hermes)
        .with("sidecar", process)
        .table()
}

/// The path with slashes for backslashes.
pub open spec fn with_slashes(path: Seq<char>) -> Seq<char> {
    path.map_values(
        |c: char|
            if c == '\\' {
                '/'
            } else {
                c
            },
    )
}

/// The path with slashes for backslashes.
pub fn slashed(path: &str) -> (r: String)
    ensures
        r@ == with_slashes(path@),
{
    let cs = chars_of(path);
    let mut out = String::new();
    let mut i: usize = 0;
    while i < cs.len()
        invariant
            i <= cs@.len(),
            cs@ == path@,
            out@ == with_slashes(path@).take(i as int),
        decreases cs@.len() - i,
    {
        let c: char = if cs[i] == '\\' {
            '/'
        } else {
            cs[i]
        };
        out.push(c);
        assert(with_slashes(path@).take(i + 1) =~= with_slashes(path@).take(i as int).push(c));
        i = i + 1;
    }
    assert(with_slashes(path@).take(i as int) =~= with_slashes(path@));
    out
}

/// The version of a configuration: the integer under `_config_version`, of a negative one what
/// its 64 bits are without a sign; zero where there is none.
pub open spec fn config_version(cfg: Option<Tree>) -> int {
    match cfg {
        Some(c) => match c.member("_config_version"@) {
            Some(v) => match v.as_u64() {
                Some(n) => n as int,
                None => match v.as_i64() {
                    Some(n) => if n < 0 {
                        n + 0x1_0000_0000_0000_0000
                    } else {
                        n as int
                    },
                    None => 0,
                },
            },
            None => 0,
        },
        None => 0,
    }
}

/// The version of a configuration.
pub fn config_version_of(cfg: Option<&Value>) -> (r: u64)
    ensures
        r == config_version(opt_ref(cfg)),
{
    match cfg {
        Some(c) => match c.member("_config_version") {
            Some(v) => match v.as_u64() {
                Some(n) => n,
                None => match v.as_i64() {
                    Some(n) => if n < 0 {
                        (n as i128 + 0x1_0000_0000_0000_0000) as u64
                    } else {
                        n as u64
                    },
                    None => 0,
                },
            },
            None => 0,
        },
        None => 0,
    }
}

/// The status of the program. The sidecar stands for the gateway, of which nothing else is
/// known.
pub open spec fn app_status(
    home: Seq<char>,
    cfg: Option<Tree>,
    active_sessions: i64,
    sidecar: SidecarStatus,
    version: Seq<char>,
) -> Tree {
    let h = with_slashes(home);
    let v = Tree::Number(Number::PosInt(config_version(cfg) as u64));
    Tree::Table(
        fields()
            .push(field("active_sessions"@, Tree::Number(int_number(active_sessions))))
            .push(field("config_path"@, Tree::Text(h + "/config.yaml"@)))
            .push(field("config_version"@, v))
            .push(field("env_path"@, Tree::Text(h + "/.env"@)))
            .push(field("gateway_exit_reason"@, Tree::Null))
            .push(field("gateway_health_url"@, Tree::Null))
            .push(field("gateway_pid"@, Tree::Null))
            .push(field("gateway_platforms"@, Tree::Table(fields())))
            .push(field("gateway_running"@, Tree::Bool(sidecar.running)))
            .push(field("gateway_state"@, Tree::Null))
            .push(field("gateway_updated_at"@, Tree::Null))
            .push(field("hermes_home"@, Tree::Text(h)))
            .push(field("latest_config_version"@, v))
            .push(field("release_date"@, Tree::Null))
            .push(field("version"@, Tree::Text(version)))
            .push(field("sidecar_hermes_version"@, Tree::Text(sidecar.hermes_version@))),
    )
}

/// The status of the program, from the configuration where it can be loaded and the number of
/// sessions that have not ended.
pub fn get_app_status(
    home: &str,
    cfg: Option<&Value>,
    active_sessions: i64,
    sidecar: &SidecarStatus,
    version: &str,
) -> (r: Value)
    ensures
        r@ == app_status(
            home@,
            opt_ref(cfg),
            active_sessions,
            *sidecar,
            version@,
        ),
{
    let h = slashed(home);
    let mut config_path = h.clone();
    config_path.append("/config.yaml");
    let mut env_path = h.clone();
    env_path.append("/.env");
    let v: u64 = config_version_of(cfg);
    Fields::new()
        .with("active_sessions", integer(active_sessions))
        .with("config_path", Value::Text(config_path))
        .with("config_version", Value::Number(Number::PosInt(v)))
        .with("env_path", Value::Text(env_path))
        .with("gateway_exit_reason", Value::Null)
        .with("gateway_health_url", Value::Null)
        .with("gateway_pid", Value::Null)
        .with("gateway_platforms", Fields::new().table())
        .with("gateway_running", Value::Bool(sidecar.running))
        .with("gateway_state", Value::Null)
        .with("gateway_updated_at", Value::Null)
        .with("hermes_home", Value::Text(h))
        .with("latest_config_version", Value::Number(Number::PosInt(v)))
        .with("release_date", Value::Null)
        .with("version", text(version))
        .with("sidecar_hermes_version", text(sidecar.hermes_version.as_str()))
        .table()
}

/// The status of an action, of which none ever runs.
pub open spec fn action_status(name: Seq<char>) -> Tree {
    Tree::Table(
        fields()
            .push(field("name"@, Tree::Text(name)))
            .push(field("status"@, Tree::Text("idle"@)))
            .push(field("progress"@, Tree::Number(int_number(0))))
            .push(field("running"@, Tree::Bool(false)))
            .push(field("exit_code"@, Tree::Number(int_number(0))))
            .push(field("lines"@, Tree::List(Seq::empty())))
            .push(field("pid"@, Tree::Null)),
    )
}

/// The status of an action.
pub fn get_action_status(name: &str) -> (r: Value)
    ensures
        r@ == action_status(name@),
{
    let lines: Vec<Value> = Vec::new();
    assert(trees(lines@) =~= Seq::<Tree>::empty());
    Fields::new()
        .with("name", text(name))
        .with("status", text("idle"))
        .with("progress", integer(0))
        .with("running", Value::Bool(false))
        .with("exit_code", integer(0))
        .with("lines", Value::List(lines))
        .with("pid", Value::Null)
        .table()
}

// ---------------------------------------------------------------------------
// Tools
// ---------------------------------------------------------------------------

/// What is told of a set of tools.
#[derive(Debug, PartialEq, Eq)]
pub struct ToolsetInfo {
    pub name: String,
    pub label: String,
    pub description: String,
    pub enabled: bool,
    pub configured: bool,
    pub tools: Vec<String>,
}

/// What is told of a set of tools, by its contents.
pub struct ToolsetFacts {
    pub name: Seq<char>,
    pub label: Seq<char>,
    pub description: Seq<char>,
    pub enabled: bool,
    pub configured: bool,
    pub tools: Seq<Seq<char>>,
}

impl View for ToolsetInfo {
    type V = ToolsetFacts;

    open spec fn view(&self) -> ToolsetFacts {
        ToolsetFacts {
            name: self.name@,
            label: self.label@,
            description: self.description@,
            enabled: self.enabled,
            configured: self.configured,
            tools: texts(self.tools@),
        }
    }
}

/// What is said of every set of tools.
pub const TOOLSET_NOTE: &'static str =
    "Voorbeeld — desktop toont geen volledige toolsetlijst; gebruik `hermes tools` of config.yaml.";

/// The sets of tools that are shown, as examples.
pub open spec fn toolsets() -> Seq<ToolsetFacts> {
    seq![
        ToolsetFacts {
            name: "terminal"@,
            label: "Terminal"@,
            description: TOOLSET_NOTE@,
            enabled: true,
            configured: true,
            tools: seq!["execute_code"@],
        },
        ToolsetFacts {
            name: "file"@,
            label: "File Operations"@,
            description: TOOLSET_NOTE@,
            enabled: true,
            configured: true,
            tools: seq!["read_file"@, "write_file"@],
        },
    ]
}

/// The sets of tools that are shown.
pub fn get_toolsets() -> (r: Vec<ToolsetInfo>)
    ensures
        Seq::new(r@.len(), |i: int| r@[i]@) == toolsets(),
{
    let terminal: Vec<String> = vec!["execute_code".to_owned()];
    let file: Vec<String> = vec!["read_file".to_owned(), "write_file".to_owned()];
    assert(texts(terminal@) =~= seq!["execute_code"@]);
    assert(texts(file@) =~= seq!["read_file"@, "write_file"@]);
    let r: Vec<ToolsetInfo> = vec![
        ToolsetInfo {
            name: "terminal".to_owned(),
            label: "Terminal".to_owned(),
            description: TOOLSET_NOTE.to_owned(),
            enabled: true,
            configured: true,
            tools: terminal,
        },
        ToolsetInfo {
            name: "file".to_owned(),
            label: "File Operations".to_owned(),
            description: TOOLSET_NOTE.to_owned(),
            enabled: true,
            configured: true,
            tools: file,
        },
    ];
    assert(Seq::new(r@.len(), |i: int| r@[i]@) =~= toolsets());
    r
}

// ---------------------------------------------------------------------------
// Laws
// ---------------------------------------------------------------------------

/// What is told of the session database: that it is missing, that it can be read, or why it
/// cannot.
pub proof fn law_db_text(e: String)
    ensures
        db_text(DbAccess::Missing) == "missing"@,
        db_text(DbAccess::Accessible) == "accessible"@,
        db_text(DbAccess::Failed(e)) == "error: "@ + e@,
{
}

/// The report for those who look for a fault tells of the system, the data and the sidecar what
/// was found of them.
pub proof fn law_diagnostics(
    os: Seq<char>,
    arch: Seq<char>,
    home: Seq<char>,
    config_exists: bool,
    db: DbAccess,
    s: SidecarStatus,
)
    ensures
        ({
            let t = diagnostics(os, arch, home, config_exists, db, s);
            &&& t is Table
            &&& section_member(t, "system"@, "os"@) == Some(Tree::Text(os))
            &&& section_member(t, "system"@, "arch"@) == Some(Tree::Text(arch))
            &&& section_member(t, "system"@, "tauri_version"@) == Some(Tree::Text("2.0.0"@))
            &&& section_member(t, "hermes"@, "home"@) == Some(Tree::Text(home))
            &&& section_member(t, "hermes"@, "config_exists"@) == Some(Tree::Bool(config_exists))
            &&& section_member(t, "hermes"@, "db_status"@) == Some(Tree::Text(db_text(db)))
            &&& section_member(t, "sidecar"@, "running"@) == Some(Tree::Bool(s.running))
            &&& section_member(t, "sidecar"@, "protocol_version"@) == Some(
                Tree::Number(Number::PosInt(s.protocol_version as u64)),
            )
            &&& section_member(t, "sidecar"@, "hermes_version"@) == Some(
                Tree::Text(s.hermes_version@),
            )
        }),
{
    let e = diagnostics(os, arch, home, config_exists, db, s)->Table_0;
    reveal_strlit("system");
    reveal_strlit("hermes");
    reveal_strlit("sidecar");
    assert("system"@.len() == 6);
    assert("hermes"@.len() == 6);
    assert("sidecar"@.len() == 7);
    assert("system"@[0] != "hermes"@[0]);
    lemma_key_index_is(e, "system"@, 0);
    lemma_key_index_is(e, "hermes"@, 1);
    lemma_key_index_is(e, "sidecar"@, 2);
    let a = e[0].1->Table_0;
    let b = e[1].1->Table_0;
    let c = e[2].1->Table_0;
    reveal_strlit("os");
    reveal_strlit("arch");
    reveal_strlit("tauri_version");
    assert("os"@.len() == 2);
    assert("arch"@.len() == 4);
    assert("tauri_version"@.len() == 13);
    lemma_key_index_is(a, "os"@, 0);
    lemma_key_index_is(a, "arch"@, 1);
    lemma_key_index_is(a, "tauri_version"@, 2);
    reveal_strlit("home");
    reveal_strlit("config_exists");
    reveal_strlit("db_status");
    assert("home"@.len() == 4);
    assert("config_exists"@.len() == 13);
    assert("db_status"@.len() == 9);
    lemma_key_index_is(b, "home"@, 0);
    lemma_key_index_is(b, "config_exists"@, 1);
    lemma_key_index_is(b, "db_status"@, 2);
    reveal_strlit("running");
    reveal_strlit("protocol_version");
    reveal_strlit("hermes_version");
    assert("running"@.len() == 7);
    assert("protocol_version"@.len() == 16);
    assert("hermes_version"@.len() == 14);
    lemma_key_index_is(c, "running"@, 0);
    lemma_key_index_is(c, "protocol_version"@, 1);
    lemma_key_index_is(c, "hermes_version"@, 2);
}

/// A path keeps its length and its characters, but for backslashes, which are slashes then.
pub proof fn law_slashes(path: Seq<char>, i: int)
    ensures
        with_slashes(path).len() == path.len(),
        0 <= i < path.len() && path[i] == '\\' ==> with_slashes(path)[i] == '/',
        0 <= i < path.len() && path[i] != '\\' ==> with_slashes(path)[i] == path[i],
{
}

/// The version of a configuration is the integer that it gives; zero where it gives none, or
/// there is no configuration.
pub proof fn law_config_version(cfg: Tree, n: u64, v: Tree)
    ensures
        config_version(None) == 0,
        cfg.member("_config_version"@) is None ==> config_version(Some(cfg)) == 0,
        cfg.member("_config_version"@) == Some(Tree::Number(Number::PosInt(n))) ==> config_version(
            Some(cfg),
        ) == n,
        cfg.member("_config_version"@) == Some(v) && v.as_u64() == Some(n) ==> config_version(
            Some(cfg),
        ) == n,
        cfg.member("_config_version"@) == Some(v) && v.as_u64() is None ==> (v.as_i64() matches
            Some(m) ==> (m < 0 ==> config_version(Some(cfg)) == m + 0x1_0000_0000_0000_0000)),
        cfg.member("_config_version"@) == Some(v) && v.as_u64() is None && v.as_i64() is None
            ==> config_version(Some(cfg)) == 0,
{
}

/// The status of the program: the sessions that have not ended, the files in the home, which is
/// told with slashes, the version of the configuration, whether the sidecar runs, and the
/// versions; of the gateway nothing else is told.
pub proof fn law_app_status(
    home: Seq<char>,
    cfg: Option<Tree>,
    n: i64,
    s: SidecarStatus,
    version: Seq<char>,
)
    ensures
        ({
            let t = app_status(home, cfg, n, s, version);
            &&& t is Table
            &&& t.member("active_sessions"@) == Some(Tree::Number(int_number(n)))
            &&& t.member("config_path"@) == Some(Tree::Text(with_slashes(home) + "/config.yaml"@))
            &&& t.member("config_version"@) == Some(
                Tree::Number(Number::PosInt(config_version(cfg) as u64)),
            )
            &&& t.member("env_path"@) == Some(Tree::Text(with_slashes(home) + "/.env"@))
            &&& t.member("gateway_exit_reason"@) == Some(Tree::Null)
            &&& t.member("gateway_health_url"@) == Some(Tree::Null)
            &&& t.member("gateway_pid"@) == Some(Tree::Null)
            &&& t.member("gateway_platforms"@) == Some(Tree::Table(Seq::empty()))
            &&& t.member("gateway_running"@) == Some(Tree::Bool(s.running))
            &&& t.member("gateway_state"@) == Some(Tree::Null)
            &&& t.member("gateway_updated_at"@) == Some(Tree::Null)
            &&& t.member("hermes_home"@) == Some(Tree::Text(with_slashes(home)))
            &&& t.member("latest_config_version"@) == Some(
                Tree::Number(Number::PosInt(config_version(cfg) as u64)),
            )
            &&& t.member("release_date"@) == Some(Tree::Null)
            &&& t.member("version"@) == Some(Tree::Text(version))
            &&& t.member("sidecar_hermes_version"@) == Some(Tree::Text(s.hermes_version@))
        }),
{
    let e = app_status(home, cfg, n, s, version)->Table_0;
    reveal_strlit("active_sessions");
    reveal_strlit("config_path");
    reveal_strlit("config_version");
    reveal_strlit("env_path");
    reveal_strlit("gateway_exit_reason");
    reveal_strlit("gateway_health_url");
    reveal_strlit("gateway_pid");
    reveal_strlit("gateway_platforms");
    reveal_strlit("gateway_running");
    reveal_strlit("gateway_state");
    reveal_strlit("gateway_updated_at");
    reveal_strlit("hermes_home");
    reveal_strlit("latest_config_version");
    reveal_strlit("release_date");
    reveal_strlit("version");
    reveal_strlit("sidecar_hermes_version");
    assert("active_sessions"@.len() == 15);
    assert("config_path"@.len() == 11);
    assert("config_version"@.len() == 14);
    assert("env_path"@.len() == 8);
    assert("gateway_exit_reason"@.len() == 19);
    assert("gateway_health_url"@.len() == 18);
    assert("gateway_pid"@.len() == 11);
    assert("gateway_platforms"@.len() == 17);
    assert("gateway_running"@.len() == 15);
    assert("gateway_state"@.len() == 13);
    assert("gateway_updated_at"@.len() == 18);
    assert("hermes_home"@.len() == 11);
    assert("latest_config_version"@.len() == 21);
    assert("release_date"@.len() == 12);
    assert("version"@.len() == 7);
    assert("sidecar_hermes_version"@.len() == 22);
    assert("config_path"@[0] != "gateway_pid"@[0]);
    assert("active_sessions"@[0] != "gateway_running"@[0]);
    assert("gateway_health_url"@[8] != "gateway_updated_at"@[8]);
    assert("config_path"@[0] != "hermes_home"@[0]);
    assert("gateway_pid"@[0] != "hermes_home"@[0]);
    lemma_key_index_is(e, "active_sessions"@, 0);
    lemma_key_index_is(e, "config_path"@, 1);
    lemma_key_index_is(e, "config_version"@, 2);
    lemma_key_index_is(e, "env_path"@, 3);
    lemma_key_index_is(e, "gateway_exit_reason"@, 4);
    lemma_key_index_is(e, "gateway_health_url"@, 5);
    lemma_key_index_is(e, "gateway_pid"@, 6);
    lemma_key_index_is(e, "gateway_platforms"@, 7);
    lemma_key_index_is(e, "gateway_running"@, 8);
    lemma_key_index_is(e, "gateway_state"@, 9);
    lemma_key_index_is(e, "gateway_updated_at"@, 10);
    lemma_key_index_is(e, "hermes_home"@, 11);
    lemma_key_index_is(e, "latest_config_version"@, 12);
    lemma_key_index_is(e, "release_date"@, 13);
    lemma_key_index_is(e, "version"@, 14);
    lemma_key_index_is(e, "sidecar_hermes_version"@, 15);
}

/// Every action is told by its name, as idle and at its start, with nothing that it wrote.
pub proof fn law_action_status(name: Seq<char>)
    ensures
        ({
            let t = action_status(name);
            &&& t is Table
            &&& t.member("name"@) == Some(Tree::Text(name))
            &&& t.member("status"@) == Some(Tree::Text("idle"@))
            &&& t.member("progress"@) == Some(Tree::Number(int_number(0)))
            &&& t.member("running"@) == Some(Tree::Bool(false))
            &&& t.member("exit_code"@) == Some(Tree::Number(int_number(0)))
            &&& t.member("lines"@) == Some(Tree::List(Seq::empty()))
            &&& t.member("pid"@) == Some(Tree::Null)
        }),
{
    let e = action_status(name)->Table_0;
    reveal_strlit("name");
    reveal_strlit("status");
    reveal_strlit("progress");
    reveal_strlit("running");
    reveal_strlit("exit_code");
    reveal_strlit("lines");
    reveal_strlit("pid");
    assert("name"@.len() == 4);
    assert("status"@.len() == 6);
    assert("progress"@.len() == 8);
    assert("running"@.len() == 7);
    assert("exit_code"@.len() == 9);
    assert("lines"@.len() == 5);
    assert("pid"@.len() == 3);
    lemma_key_index_is(e, "name"@, 0);
    lemma_key_index_is(e, "status"@, 1);
    lemma_key_index_is(e, "progress"@, 2);
    lemma_key_index_is(e, "running"@, 3);
    lemma_key_index_is(e, "exit_code"@, 4);
    lemma_key_index_is(e, "lines"@, 5);
    lemma_key_index_is(e, "pid"@, 6);
}

/// Two sets of tools are shown, both as switched on: one that runs code, and one that reads and
/// writes files.
pub proof fn law_toolsets()
    ensures
        toolsets().len() == 2,
        toolsets()[0].name == "terminal"@ && toolsets()[0].label == "Terminal"@,
        toolsets()[0].tools == seq!["execute_code"@],
        toolsets()[1].name == "file"@ && toolsets()[1].label == "File Operations"@,
        toolsets()[1].tools == seq!["read_file"@, "write_file"@],
        forall|i: int|
            0 <= i < 2 ==> (#[trigger] toolsets()[i]).enabled && toolsets()[i].configured
                && toolsets()[i].description == TOOLSET_NOTE@,
{
}

/// What is told of a set of tools stands in the entry as it is.
pub proof fn law_toolset_info(t: ToolsetInfo, i: int)
    ensures
        t@.name == t.name@ && t@.label == t.label@ && t@.description == t.description@,
        t@.enabled == t.enabled && t@.configured == t.configured,
        t@.tools.len() == t.tools@.len(),
        0 <= i < t.tools@.len() ==> t@.tools[i] == t.tools@[i]@,
{
}

} // verus!
