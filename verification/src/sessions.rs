//! Sessions: pages of them, their messages, searching and deleting.
//!
//! Times and costs are floating-point numbers, by their bits.
use vstd::prelude::*;
use vstd::string::*;

use crate::analytics::{float, float_tree};
use crate::fts::{fts_query, sanitize_fts5_query};
use crate::text::{copy_opt_text, opt_text, text_result, texts, trim, trimmed};
use crate::value::{
    field, fields, lemma_key_index_is, lemma_list_tree, lemma_table_tree, opt_tree, text,
    text_or_null, trees, Fields, Tree, Value,
};

verus! {

broadcast use {lemma_list_tree, lemma_table_tree};

// ---------------------------------------------------------------------------
// Pages
// ---------------------------------------------------------------------------

/// How many sessions a page has where nothing is asked for.
pub const DEFAULT_PAGE: usize = 20;

/// What is told of a session.
#[derive(Debug, PartialEq, Eq)]
pub struct SessionInfo {
    pub id: String,
    pub source: String,
    pub model: Option<String>,
    pub title: Option<String>,
    pub started_at: u64,
    pub ended_at: Option<u64>,
    pub last_active: u64,
    pub is_active: bool,
    pub message_count: i32,
    pub tool_call_count: i32,
    pub input_tokens: i32,
    pub output_tokens: i32,
    pub estimated_cost_usd: Option<u64>,
    pub preview: Option<String>,
    pub parent_session_id: Option<String>,
}

/// A session in the database.
pub struct SessionRow {
    pub id: String,
    pub source: String,
    pub model: Option<String>,
    pub title: Option<String>,
    pub started_at: u64,
    pub ended_at: Option<u64>,
    pub message_count: i32,
    pub tool_call_count: i32,
    pub input_tokens: i32,
    pub output_tokens: i32,
    pub estimated_cost_usd: Option<u64>,
    pub parent_session_id: Option<String>,
    pub last_active: u64,
    pub preview: Option<String>,
}

/// A page of sessions.
#[derive(Debug, PartialEq, Eq)]
pub struct PaginatedSessions {
    pub sessions: Vec<SessionInfo>,
    pub total: usize,
    pub limit: usize,
    pub offset: usize,
}

/// What is told of a session is what the database says; it is active where it has not ended.
pub open spec fn tells(info: SessionInfo, row: SessionRow) -> bool {
    &&& info.id@ == row.id@
    &&& info.source@ == row.source@
    &&& opt_text(info.model) == opt_text(row.model)
    &&& opt_text(info.title) == opt_text(row.title)
    &&& info.started_at == row.started_at
    &&& info.ended_at == row.ended_at
    &&& info.last_active == row.last_active
    &&& info.is_active == (row.ended_at is None)
    &&& info.message_count == row.message_count
    &&& info.tool_call_count == row.tool_call_count
    &&& info.input_tokens == row.input_tokens
    &&& info.output_tokens == row.output_tokens
    &&& info.estimated_cost_usd == row.estimated_cost_usd
    &&& opt_text(info.preview) == opt_text(row.preview)
    &&& opt_text(info.parent_session_id) == opt_text(row.parent_session_id)
}

/// What is told of a session.
pub fn session_info(row: SessionRow) -> (r: SessionInfo)
    ensures
        tells(r, row),
{
    SessionInfo {
        id: row.id,
        source: row.source,
        model: row.model,
        title: row.title,
        started_at: row.started_at,
        ended_at: row.ended_at,
        last_active: row.last_active,
        is_active: row.ended_at.is_none(),
        message_count: row.message_count,
        tool_call_count: row.tool_call_count,
        input_tokens: row.input_tokens,
        output_tokens: row.output_tokens,
        estimated_cost_usd: row.estimated_cost_usd,
        preview: row.preview,
        parent_session_id: row.parent_session_id,
    }
}

/// The size of a page and the number of sessions before it.
pub open spec fn page(limit: Option<usize>, offset: Option<usize>) -> (usize, usize) {
    (
        match limit {
            Some(n) => n,
            None => DEFAULT_PAGE,
        },
        match offset {
            Some(n) => n,
            None => 0,
        },
    )
}

/// The size of a page and the number of sessions before it.
pub fn page_bounds(limit: Option<usize>, offset: Option<usize>) -> (r: (usize, usize))
    ensures
        r == page(limit, offset),
{
    let size: usize = match limit {
        Some(n) => n,
        None => DEFAULT_PAGE,
    };
    let before: usize = match offset {
        Some(n) => n,
        None => 0,
    };
    (size, before)
}

/// A page of sessions, from the number of all sessions and the rows of the page; empty where
/// there is no database.
pub fn get_sessions(
    limit: Option<usize>,
    offset: Option<usize>,
    found: Option<(usize, Vec<SessionRow>)>,
) -> (r: PaginatedSessions)
    ensures
        (r.limit, r.offset) == page(limit, offset),
        match found {
            Some((total, rows)) => {
                &&& r.total == total
                &&& r.sessions@.len() == rows@.len()
                &&& forall|i: int|
                    0 <= i < rows@.len() ==> tells(#[trigger] r.sessions@[i], rows@[i])
            },
            None => r.total == 0 && r.sessions@.len() == 0,
        },
{
    let (limit, offset) = page_bounds(limit, offset);
    let mut sessions: Vec<SessionInfo> = Vec::new();
    let mut total: usize = 0;
    if let Some((n, rows)) = found {
        total = n;
        let ghost all = rows@;
        for row in it: rows
            invariant
                it.seq() == all,
                sessions@.len() == it.index(),
                forall|j: int| 0 <= j < sessions@.len() ==> tells(#[trigger] sessions@[j], all[j]),
        {
            sessions.push(session_info(row));
        }
    }
    PaginatedSessions { sessions, total, limit, offset }
}

// ---------------------------------------------------------------------------
// Messages
// ---------------------------------------------------------------------------

/// A message of a session.
#[derive(Debug, PartialEq, Eq)]
pub struct SessionMessage {
    pub role: String,
    pub content: Option<String>,
    pub tool_calls: Option<Value>,
    pub tool_name: Option<String>,
    pub tool_call_id: Option<String>,
    pub timestamp: Option<u64>,
    pub reasoning: Option<String>,
}

/// The messages of a session.
#[derive(Debug, PartialEq, Eq)]
pub struct SessionMessagesResponse {
    pub session_id: String,
    pub messages: Vec<SessionMessage>,
}

/// The calls of tools of a message: the document that its column holds, and none where the
/// column is empty or holds no document.
pub fn tool_calls_of(column: Option<Result<Value, String>>) -> (r: Option<Value>)
    ensures
        opt_tree(r) == (match column {
            Some(Ok(v)) => Some(v@),
            Some(Err(_)) => None,
            None => None,
        }),
{
    match column {
        Some(Ok(v)) => Some(v),
        Some(Err(_)) => None,
        None => None,
    }
}

/// The messages of a session; none where there is no database.
pub fn get_session_messages(session_id: String, found: Option<Vec<SessionMessage>>) -> (r:
    SessionMessagesResponse)
    ensures
        r.session_id@ == session_id@,
        r.messages@ == (match found {
            Some(v) => v@,
            None => Seq::empty(),
        }),
{
    match found {
        Some(messages) => SessionMessagesResponse { session_id, messages },
        None => SessionMessagesResponse { session_id, messages: Vec::new() },
    }
}

// ---------------------------------------------------------------------------
// Searching
// ---------------------------------------------------------------------------

/// What is searched for: the text itself, and the query for the full-text index, where
/// anything is left of it.
#[derive(Debug, PartialEq, Eq)]
pub struct SearchPlan {
    pub needle: String,
    pub fts: Option<String>,
}

/// What is searched for; nothing where the text is blank.
pub fn plan_search(q: &str) -> (r: Option<SearchPlan>)
    ensures
        match r {
            Some(p) => {
                &&& trim(q@).len() > 0
                &&& p.needle@ == trim(q@)
                &&& opt_text(p.fts) == if fts_query(trim(q@)).len() > 0 {
                    Some(fts_query(trim(q@)))
                } else {
                    None
                }
            },
            None => trim(q@).len() == 0,
        },
{
    let needle = trimmed(q);
    if needle.unicode_len() == 0 {
        return None;
    }
    let query = sanitize_fts5_query(needle);
    let fts = if query.as_str().unicode_len() > 0 {
        Some(query)
    } else {
        None
    };
    Some(SearchPlan { needle: needle.to_owned(), fts })
}

/// A session that was found.
pub struct SearchRow {
    pub id: String,
    pub title: Option<String>,
    pub model: Option<String>,
    pub started_at: u64,
}

/// A text that may be missing in a document.
pub open spec fn optional_tree(s: Option<Seq<char>>) -> Tree {
    match s {
        Some(t) => Tree::Text(t),
        None => Tree::Null,
    }
}

/// A session that was found, in a document.
pub open spec fn found_tree(row: SearchRow) -> Tree {
    Tree::Table(
        fields()
            .push(field("id"@, Tree::Text(row.id@)))
            .push(field("title"@, optional_tree(opt_text(row.title))))
            .push(field("model"@, optional_tree(opt_text(row.model))))
            .push(field("started_at"@, float_tree(row.started_at))),
    )
}

/// What a search gives, of the sessions that were found.
pub open spec fn search_tree(rows: Seq<SearchRow>) -> Tree {
    Tree::Table(
        fields()
            .push(field(
                "results"@,
                Tree::List(Seq::new(rows.len(), |i: int| found_tree(rows[i]))),
            )),
    )
}

/// Whether the substring search is needed: only where the full-text search found nothing. A
/// full-text search that failed found nothing.
pub fn needs_substring_search(fts_rows: &Vec<SearchRow>) -> (r: bool)
    ensures
        r == (fts_rows@.len() == 0),
{
    fts_rows.len() == 0
}

/// What a search gives, of the sessions that the two searches found.
pub fn search_sessions(fts_rows: &Vec<SearchRow>, substring_rows: &Vec<SearchRow>) -> (r: Value)
    ensures
        r@ == search_tree(
            if fts_rows@.len() == 0 {
                substring_rows@
            } else {
                fts_rows@
            },
        ),
{
    let rows = if needs_substring_search(fts_rows) {
        substring_rows
    } else {
        fts_rows
    };
    let mut out: Vec<Value> = Vec::new();
    let mut i: usize = 0;
    while i < rows.len()
        invariant
            i <= rows@.len(),
            out@.len() == i,
            forall|j: int| 0 <= j < i ==> (#[trigger] out@[j])@ == found_tree(rows@[j]),
        decreases rows@.len() - i,
    {
        let row = &rows[i];
        out.push(
            Fields::new()
                .with("id", text(row.id.as_str()))
                .with("title", text_or_null(copy_opt_text(&row.title)))
                .with("model", text_or_null(copy_opt_text(&row.model)))
                .with("started_at", float(row.started_at))
                .table(),
        );
        i = i + 1;
    }
    assert(trees(out@) =~= Seq::new(rows@.len(), |i: int| found_tree(rows@[i])));
    Fields::new().with("results", Value::List(out)).table()
}

// ---------------------------------------------------------------------------
// Deleting
// ---------------------------------------------------------------------------

/// The session that is to be deleted; one without an identifier cannot be.
pub fn session_to_delete(session_id: &str) -> (r: Result<String, String>)
    ensures
        text_result(r) == if trim(session_id@).len() == 0 {
            Err("session id required"@)
        } else {
            Ok(trim(session_id@))
        },
{
    let id = trimmed(session_id);
    if id.unicode_len() == 0 {
        Err("session id required".to_owned())
    } else {
        Ok(id.to_owned())
    }
}

/// What is deleted.
#[derive(Debug, PartialEq, Eq)]
pub enum DeleteStep {
    /// The messages of a session.
    Messages(String),
    /// A session.
    Session(String),
}

/// What is deleted, by its contents.
pub enum Removal {
    Messages(Seq<char>),
    Session(Seq<char>),
}

impl View for DeleteStep {
    type V = Removal;

    open spec fn view(&self) -> Removal {
        match self {
            DeleteStep::Messages(s) => Removal::Messages(s@),
            DeleteStep::Session(s) => Removal::Session(s@),
        }
    }
}

/// The contents of what is deleted.
pub open spec fn removals(v: Seq<DeleteStep>) -> Seq<Removal> {
    Seq::new(v.len(), |i: int| v[i]@)
}

/// What is deleted of sessions: first the messages of all of them, and then the sessions, both
/// in the order in which the sessions are given.
pub open spec fn deletion(ids: Seq<Seq<char>>) -> Seq<Removal> {
    ids.map_values(|s: Seq<char>| Removal::Messages(s)) + ids.map_values(
        |s: Seq<char>| Removal::Session(s),
    )
}

/// What is deleted of sessions, which are given with every session after those that came out of
/// it.
pub fn delete_session(ids: &Vec<String>) -> (r: Vec<DeleteStep>)
    ensures
        removals(r@) == deletion(texts(ids@)),
{
    let ghost all = texts(ids@);
    let mut out: Vec<DeleteStep> = Vec::new();
    let mut i: usize = 0;
    while i < ids.len()
        invariant
            i <= ids@.len(),
            out@.len() == i,
            forall|j: int| 0 <= j < i ==> (#[trigger] out@[j])@ == Removal::Messages(ids@[j]@),
        decreases ids@.len() - i,
    {
        out.push(DeleteStep::Messages(ids[i].clone()));
        i = i + 1;
    }
    let mut k: usize = 0;
    while k < ids.len()
        invariant
            k <= ids@.len(),
            out@.len() == ids@.len() + k,
            forall|j: int|
                0 <= j < ids@.len() ==> (#[trigger] out@[j])@ == Removal::Messages(ids@[j]@),
            forall|j: int|
                ids@.len() <= j < out@.len() ==> (#[trigger] out@[j])@ == Removal::Session(
                    ids@[j - ids@.len()]@,
                ),
        decreases ids@.len() - k,
    {
        out.push(DeleteStep::Session(ids[k].clone()));
        k = k + 1;
    }
    assert(removals(out@) =~= deletion(all));
    out
}

/// The sessions that are left, each with the one that it came out of, when some are gone.
pub open spec fn left_of(
    sessions: Map<Seq<char>, Option<Seq<char>>>,
    steps: Seq<Removal>,
) -> Map<Seq<char>, Option<Seq<char>>>
    decreases steps.len(),
{
    if steps.len() == 0 {
        sessions
    } else {
        match steps.last() {
            Removal::Session(id) => left_of(sessions, steps.drop_last()).remove(id),
            Removal::Messages(_) => left_of(sessions, steps.drop_last()),
        }
    }
}

/// Every session that came out of another has that other beside it.
pub open spec fn no_orphans(sessions: Map<Seq<char>, Option<Seq<char>>>) -> bool {
    forall|id: Seq<char>| #[trigger]
        sessions.dom().contains(id) ==> match sessions[id] {
            Some(p) => sessions.dom().contains(p),
            None => true,
        }
}

/// A session is left where none of the steps took it away.
proof fn lemma_left_of(
    sessions: Map<Seq<char>, Option<Seq<char>>>,
    steps: Seq<Removal>,
    id: Seq<char>,
)
    ensures
        left_of(sessions, steps).dom().contains(id) <==> sessions.dom().contains(id)
            && !steps.contains(Removal::Session(id)),
        left_of(sessions, steps).dom().contains(id) ==> left_of(sessions, steps)[id]
            == sessions[id],
    decreases steps.len(),
{
    if steps.len() > 0 {
        let front = steps.drop_last();
        lemma_left_of(sessions, front, id);
        if steps.contains(Removal::Session(id)) {
            let k = choose|k: int| 0 <= k < steps.len() && steps[k] == Removal::Session(id);
            if k < front.len() {
                assert(front[k] == Removal::Session(id));
            }
        }
        if front.contains(Removal::Session(id)) {
            let k = choose|k: int| 0 <= k < front.len() && front[k] == Removal::Session(id);
            assert(steps[k] == Removal::Session(id));
        }
        if steps.last() == Removal::Session(id) {
            assert(steps[steps.len() - 1] == Removal::Session(id));
        }
    }
}

/// Where the sessions that are deleted are given with all that came out of them, and each after
/// those, no session is ever left without the one that it came out of: not at the end, and not
/// on the way.
pub proof fn law_no_orphans(
    sessions: Map<Seq<char>, Option<Seq<char>>>,
    ids: Seq<Seq<char>>,
    n: int,
)
    requires
        no_orphans(sessions),
        0 <= n <= deletion(ids).len(),
        forall|i: int, id: Seq<char>|
            0 <= i < ids.len() && sessions.dom().contains(id) && sessions[id] == Some(ids[i])
                ==> #[trigger] stands_before(ids, id, i),
    ensures
        no_orphans(left_of(sessions, deletion(ids).take(n))),
{
    let steps = deletion(ids).take(n);
    let left = left_of(sessions, steps);
    assert forall|id: Seq<char>| #[trigger] left.dom().contains(id) implies match left[id] {
        Some(p) => left.dom().contains(p),
        None => true,
    } by {
        lemma_left_of(sessions, steps, id);
        if let Some(p) = left[id] {
            lemma_left_of(sessions, steps, p);
            assert(sessions.dom().contains(id));
            if steps.contains(Removal::Session(p)) {
                let k = choose|k: int| 0 <= k < steps.len() && steps[k] == Removal::Session(p);
                assert(deletion(ids)[k] == Removal::Session(p));
                let i = k - ids.len();
                assert(ids[i] == p);
                assert(stands_before(ids, id, i));
                let j = choose|j: int| 0 <= j < i && ids[j] == id;
                assert(deletion(ids)[ids.len() + j] == Removal::Session(id));
                assert(steps[ids.len() + j] == Removal::Session(id));
            }
        }
    }
}

/// The identifier stands among the first `i`.
pub open spec fn stands_before(ids: Seq<Seq<char>>, id: Seq<char>, i: int) -> bool {
    exists|j: int| 0 <= j < i && ids[j] == id
}

/// A page has the size that is asked for and begins where it is asked to; where nothing is asked
/// for, it has twenty sessions and begins with the first.
pub proof fn law_page(limit: usize, offset: usize)
    ensures
        page(Some(limit), Some(offset)) == (limit, offset),
        page(None, Some(offset)) == (20usize, offset),
        page(Some(limit), None) == (limit, 0usize),
        page(None, None) == (20usize, 0usize),
{
}

/// A session is told as active just where no end of it is known, and otherwise as the database
/// has it, with nothing left out.
pub proof fn law_tells(info: SessionInfo, row: SessionRow)
    requires
        tells(info, row),
    ensures
        info.is_active <==> row.ended_at is None,
        info.id@ == row.id@ && info.source@ == row.source@,
        row.model matches Some(s) ==> (info.model matches Some(t) && t@ == s@),
        row.model is None ==> info.model is None,
        row.title matches Some(s) ==> (info.title matches Some(t) && t@ == s@),
        row.title is None ==> info.title is None,
        row.preview matches Some(s) ==> (info.preview matches Some(t) && t@ == s@),
        row.preview is None ==> info.preview is None,
        row.parent_session_id matches Some(s) ==> (info.parent_session_id matches Some(t) && t@
            == s@),
        row.parent_session_id is None ==> info.parent_session_id is None,
        info.started_at == row.started_at && info.ended_at == row.ended_at,
        info.last_active == row.last_active,
        info.message_count == row.message_count && info.tool_call_count == row.tool_call_count,
        info.input_tokens == row.input_tokens && info.output_tokens == row.output_tokens,
        info.estimated_cost_usd == row.estimated_cost_usd,
{
}

/// What is told of a session that was found: its identifier, its title and its model, each null
/// where it is not known, and when it started.
pub proof fn law_found(row: SearchRow)
    ensures
        ({
            let t = found_tree(row);
            &&& t is Table
            &&& t.member("id"@) == Some(Tree::Text(row.id@))
            &&& row.title matches Some(s) ==> t.member("title"@) == Some(Tree::Text(s@))
            &&& row.title is None ==> t.member("title"@) == Some(Tree::Null)
            &&& row.model matches Some(s) ==> t.member("model"@) == Some(Tree::Text(s@))
            &&& row.model is None ==> t.member("model"@) == Some(Tree::Null)
            &&& t.member("started_at"@) == Some(float_tree(row.started_at))
        }),
{
    let e = found_tree(row)->Table_0;
    reveal_strlit("id");
    reveal_strlit("title");
    reveal_strlit("model");
    reveal_strlit("started_at");
    assert("id"@.len() == 2);
    assert("title"@.len() == 5);
    assert("model"@.len() == 5);
    assert("started_at"@.len() == 10);
    assert("title"@[0] != "model"@[0]);
    lemma_key_index_is(e, "id"@, 0);
    lemma_key_index_is(e, "title"@, 1);
    lemma_key_index_is(e, "model"@, 2);
    lemma_key_index_is(e, "started_at"@, 3);
}

/// A search gives every session that was found, in the order in which they were found.
pub proof fn law_search(rows: Seq<SearchRow>, i: int)
    ensures
        search_tree(rows) is Table,
        search_tree(rows).member("results"@) matches Some(Tree::List(l)) && l.len() == rows.len()
            && (0 <= i < l.len() ==> l[i] == found_tree(rows[i])),
{
    lemma_key_index_is(search_tree(rows)->Table_0, "results"@, 0);
}

/// The messages of each session are deleted before any session is, and every session once for
/// each time that it is given.
pub proof fn law_deletion(ids: Seq<Seq<char>>, i: int)
    requires
        0 <= i < ids.len(),
    ensures
        deletion(ids).len() == 2 * ids.len(),
        deletion(ids)[i] == Removal::Messages(ids[i]),
        deletion(ids)[ids.len() + i] == Removal::Session(ids[i]),
{
}

/// Deleting takes away the sessions that are given, and no other.
pub proof fn law_deleted(
    sessions: Map<Seq<char>, Option<Seq<char>>>,
    ids: Seq<Seq<char>>,
    id: Seq<char>,
)
    ensures
        left_of(sessions, deletion(ids)).dom().contains(id) <==> sessions.dom().contains(id)
            && !ids.contains(id),
        sessions.dom().contains(id) && !ids.contains(id) ==> left_of(sessions, deletion(ids))[id]
            == sessions[id],
{
    let steps = deletion(ids);
    lemma_left_of(sessions, steps, id);
    if ids.contains(id) {
        let i = choose|i: int| 0 <= i < ids.len() && ids[i] == id;
        assert(steps[ids.len() + i] == Removal::Session(id));
    }
    if steps.contains(Removal::Session(id)) {
        let k = choose|k: int| 0 <= k < steps.len() && steps[k] == Removal::Session(id);
        assert(k >= ids.len());
        assert(ids[k - ids.len()] == id);
    }
}

/// A step of deleting is what it says.
pub proof fn law_delete_step(s: String)
    ensures
        DeleteStep::Messages(s)@ == Removal::Messages(s@),
        DeleteStep::Session(s)@ == Removal::Session(s@),
{
}

} // verus!
