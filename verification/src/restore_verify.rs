//! The checks run after a restore, from what the caller read back.
//!
//! The caller reads the restored session index, thread database and session
//! files, and hashes restored files; these functions decide whether the
//! restore holds together.
use vstd::prelude::*;
use crate::digest::{hex_digit, hex_digit_text};
use crate::error::{ErrorCode, RehomeError};
use crate::models::{
    opt_view, ChangeKind, OperationKind, PlannedOperation, PlannedSession, ProjectRegistration,
    ReferenceRewrite, ReferenceRewriteKind, RegistrationStatus, RestorePlan, SourceOs, VerificationReport,
    VerificationStatus,
};
use crate::restore::{
    data_checks_passed, eq_ignore_ascii_case, eq_ignore_case, is_bridge_operation,
    is_bridge_source, path_is_within, path_starts_with, restore_failed,
};
use crate::json::{field, json_parse, line_ranges, nonempty_lines, parse_json, JsonValue};
use crate::restore_apply::TargetState;
use crate::strmap::StrMap;

verus! {


/// Some string inside `v` (at any depth, in arrays and object values) is
/// `expected`.
pub open spec fn json_contains(v: JsonValue, expected: Seq<char>) -> bool
    decreases v, 0int,
{
    match v {
        JsonValue::Text(s) => s@ == expected,
        JsonValue::Array(items) => items_contain(items@, expected, items@.len() as int),
        JsonValue::Object(fields) => fields_contain(fields@, expected, fields@.len() as int),
        _ => false,
    }
}

/// Some of the first `n` values contains `expected`.
pub open spec fn items_contain(items: Seq<JsonValue>, expected: Seq<char>, n: int) -> bool
    decreases items, n,
{
    if n <= 0 || n > items.len() {
        false
    } else {
        items_contain(items, expected, n - 1) || json_contains(items[n - 1], expected)
    }
}

/// Some of the first `n` field values contains `expected`.
pub open spec fn fields_contain(fields: Seq<(String, JsonValue)>, expected: Seq<char>, n: int) -> bool
    decreases fields, n,
{
    if n <= 0 || n > fields.len() {
        false
    } else {
        fields_contain(fields, expected, n - 1) || json_contains(fields[n - 1].1, expected)
    }
}

/// Whether some string inside `v` is `expected`.
pub fn json_contains_string(v: &JsonValue, expected: &String) -> (r: bool)
    ensures
        r == json_contains(*v, expected@),
    decreases *v, 0int,
{
    match v {
        JsonValue::Text(s) => *s == *expected,
        JsonValue::Array(items) => any_item_contains(items, expected, items.len()),
        JsonValue::Object(fields) => any_field_contains(fields, expected, fields.len()),
        _ => false,
    }
}

fn any_item_contains(items: &Vec<JsonValue>, expected: &String, n: usize) -> (r: bool)
    requires
        n <= items@.len(),
    ensures
        r == items_contain(items@, expected@, n as int),
    decreases items@, n,
{
    if n == 0 {
        false
    } else {
        any_item_contains(items, expected, n - 1) || json_contains_string(&items[n - 1], expected)
    }
}

fn any_field_contains(fields: &Vec<(String, JsonValue)>, expected: &String, n: usize) -> (r: bool)
    requires
        n <= fields@.len(),
    ensures
        r == fields_contain(fields@, expected@, n as int),
    decreases fields@, n,
{
    if n == 0 {
        false
    } else {
        any_field_contains(fields, expected, n - 1) || json_contains_string(
            &fields[n - 1].1,
            expected,
        )
    }
}

/// Byte `i` (0 first) of `x` in big-endian order.
pub open spec fn u128_byte(x: u128, i: int) -> u8 {
    (x >> ((120 - 8 * i) as u32)) as u8
}

/// The hyphenated lower-case text of the first `n` bytes of a UUID `x`:
/// two hexadecimal digits per byte, with a `-` before bytes 4, 6, 8 and 10.
pub open spec fn uuid_chars(x: u128, n: int) -> Seq<char>
    decreases n,
{
    if n <= 0 {
        Seq::empty()
    } else {
        let b = u128_byte(x, n - 1);
        uuid_chars(x, n - 1) + (if n - 1 == 4 || n - 1 == 6 || n - 1 == 8 || n - 1 == 10 {
            seq!['-']
        } else {
            Seq::empty()
        }) + seq![hex_digit(b / 16), hex_digit(b % 16)]
    }
}

/// The text of the UUID with value `x`, as `uuid::Uuid` displays it:
/// hyphenated, lower case.
pub open spec fn uuid_text_of(x: u128) -> Seq<char> {
    uuid_chars(x, 16)
}

/// The text of the UUID with value `id`, hyphenated and lower case.
pub fn uuid_text(id: u128) -> (r: String)
    ensures
        r@ == uuid_text_of(id),
{
    let mut out = String::new();
    let mut i: u32 = 0;
    while i < 16
        invariant
            i <= 16,
            out@ == uuid_chars(id, i as int),
        decreases 16 - i,
    {
        let b = (id >> (120 - 8 * i)) as u8;
        assert(b == u128_byte(id, i as int));
        let ghost before = out@;
        if i == 4 || i == 6 || i == 8 || i == 10 {
            out.append("-");
            proof {
                reveal_strlit("-");
            }
        }
        out.append(hex_digit_text(b / 16));
        out.append(hex_digit_text(b % 16));
        assert(out@ =~= uuid_chars(id, i + 1));
        i = i + 1;
    }
    out
}

/// A row of the restored session index, as far as the checks read it: its
/// `rollout_path` and `cwd` when they are strings.
#[derive(Debug, Clone, PartialEq, Eq)]
pub struct IndexRow {
    pub rollout_path: Option<String>,
    pub cwd: Option<String>,
}

impl View for IndexRow {
    type V = (Option<Seq<char>>, Option<Seq<char>>);

    open spec fn view(&self) -> (Option<Seq<char>>, Option<Seq<char>>) {
        (opt_view(self.rollout_path), opt_view(self.cwd))
    }
}

/// The values of `lines` parsed one by one, or the error of the first line
/// that does not parse.
pub open spec fn parse_lines(lines: Seq<Seq<char>>) -> Result<Seq<JsonValue>, Seq<char>>
    decreases lines.len(),
{
    if lines.len() == 0 {
        Ok(Seq::empty())
    } else {
        match parse_lines(lines.drop_last()) {
            Err(m) => Err(m),
            Ok(vs) => match json_parse(lines.last()) {
                Ok(v) => Ok(vs.push(v)),
                Err(m) => Err(m),
            },
        }
    }
}

/// The JSON values of a restored session file's text, one per non-empty
/// line, in order. Fails on the first line that is not one JSON value, with
/// the parser's error in the message.
pub fn jsonl_values(text: &str) -> (r: Result<Vec<JsonValue>, RehomeError>)
    ensures
        match parse_lines(nonempty_lines(text@)) {
            Ok(vs) => r matches Ok(out) && out@ == vs,
            Err(m) => r matches Err(e) && e.code == ErrorCode::RestoreFailed && e.message@
                == "restored session JSONL is invalid: "@ + m,
        },
{
    let ranges = line_ranges(text);
    let ghost lines = nonempty_lines(text@);
    let mut out: Vec<JsonValue> = Vec::new();
    let mut k: usize = 0;
    while k < ranges.len()
        invariant
            ranges@.len() == lines.len(),
            lines == nonempty_lines(text@),
            forall|j: int|
                #![trigger ranges@[j]]
                0 <= j < ranges@.len() ==> ranges@[j].0 <= ranges@[j].1 <= text@.len()
                    && text@.subrange(ranges@[j].0 as int, ranges@[j].1 as int) == lines[j],
            k <= ranges@.len(),
            parse_lines(lines.take(k as int)) == Ok::<Seq<JsonValue>, Seq<char>>(out@),
        decreases ranges@.len() - k,
    {
        let (a, b) = ranges[k];
        let line = text.substring_char(a, b);
        assert(lines.take(k + 1).drop_last() =~= lines.take(k as int));
        assert(lines.take(k + 1).last() == line@);
        match parse_json(line) {
            Ok(v) => {
                out.push(v);
            },
            Err(m) => {
                proof {
                    lemma_parse_lines_error(lines, k + 1);
                }
                let mut message = String::from_str("restored session JSONL is invalid: ");
                message.append(m.as_str());
                return Err(RehomeError { code: ErrorCode::RestoreFailed, message });
            },
        }
        k = k + 1;
    }
    assert(lines.take(ranges@.len() as int) =~= lines);
    Ok(out)
}

/// Once a prefix of the lines fails to parse, the whole does, with the same
/// error.
proof fn lemma_parse_lines_error(lines: Seq<Seq<char>>, k: int)
    requires
        0 <= k <= lines.len(),
        parse_lines(lines.take(k)) is Err,
    ensures
        parse_lines(lines) == parse_lines(lines.take(k)),
    decreases lines.len() - k,
{
    if k < lines.len() {
        assert(lines.take(k + 1).drop_last() =~= lines.take(k));
        lemma_parse_lines_error(lines, k + 1);
    } else {
        assert(lines.take(k) =~= lines);
    }
}

/// The value's member `name` when it is a string.
pub open spec fn text_member(fields: Seq<(String, JsonValue)>, name: Seq<char>) -> Option<String> {
    match field(fields, name) {
        Some(JsonValue::Text(t)) => Some(t),
        _ => None,
    }
}

/// The index row a JSON value gives: an object with a string `id` gives the
/// row for that id, with its `rollout_path` and `cwd` when they are strings.
pub open spec fn index_row_of(v: JsonValue) -> Option<(String, IndexRow)> {
    match v {
        JsonValue::Object(fields) => match text_member(fields@, "id"@) {
            Some(id) => Some(
                (
                    id,
                    IndexRow {
                        rollout_path: text_member(fields@, "rollout_path"@),
                        cwd: text_member(fields@, "cwd"@),
                    },
                ),
            ),
            None => None,
        },
        _ => None,
    }
}

/// The rows of the lines of a session index, by id (a later row for an id
/// replaces an earlier one), or the error of the first line that does not
/// parse.
pub open spec fn index_rows_of(lines: Seq<Seq<char>>) -> Result<
    Map<Seq<char>, (Option<Seq<char>>, Option<Seq<char>>)>,
    Seq<char>,
>
    decreases lines.len(),
{
    if lines.len() == 0 {
        Ok(Map::empty())
    } else {
        match index_rows_of(lines.drop_last()) {
            Err(m) => Err(m),
            Ok(rows) => match json_parse(lines.last()) {
                Err(m) => Err(m),
                Ok(v) => match index_row_of(v) {
                    Some((id, row)) => Ok(rows.insert(id@, row@)),
                    None => Ok(rows),
                },
            },
        }
    }
}

proof fn lemma_index_rows_error(lines: Seq<Seq<char>>, k: int)
    requires
        0 <= k <= lines.len(),
        index_rows_of(lines.take(k)) is Err,
    ensures
        index_rows_of(lines) == index_rows_of(lines.take(k)),
    decreases lines.len() - k,
{
    if k < lines.len() {
        assert(lines.take(k + 1).drop_last() =~= lines.take(k));
        lemma_index_rows_error(lines, k + 1);
    } else {
        assert(lines.take(k) =~= lines);
    }
}

fn text_member_of(fields: &Vec<(String, JsonValue)>, name: &str) -> (r: Option<String>)
    ensures
        r == text_member(fields@, name@),
{
    match crate::json::find_field(fields, name) {
        Some(i) => match &fields[i].1 {
            JsonValue::Text(t) => Some(t.clone()),
            _ => None,
        },
        None => None,
    }
}

/// The index row a parsed line gives (see `index_row_of`).
pub fn index_row_from_json(v: &JsonValue) -> (r: Option<(String, IndexRow)>)
    ensures
        r == index_row_of(*v),
{
    match v {
        JsonValue::Object(fields) => match text_member_of(fields, "id") {
            Some(id) => Some(
                (
                    id,
                    IndexRow {
                        rollout_path: text_member_of(fields, "rollout_path"),
                        cwd: text_member_of(fields, "cwd"),
                    },
                ),
            ),
            None => None,
        },
        _ => None,
    }
}

/// The rows of the restored session index's text, by id, one from each
/// non-empty line that is an object with a string `id`. Fails on the first
/// line that is not one JSON value, with the parser's error in the message.
pub fn index_rows_from_text(text: &str) -> (r: Result<StrMap<IndexRow>, RehomeError>)
    ensures
        match index_rows_of(nonempty_lines(text@)) {
            Ok(rows) => r matches Ok(m) && m.wf() && m@ == rows,
            Err(msg) => r matches Err(e) && e.code == ErrorCode::RestoreFailed && e.message@
                == "restored session index is invalid: "@ + msg,
        },
{
    let ranges = line_ranges(text);
    let ghost lines = nonempty_lines(text@);
    let mut rows: StrMap<IndexRow> = StrMap::new();
    let mut k: usize = 0;
    while k < ranges.len()
        invariant
            ranges@.len() == lines.len(),
            lines == nonempty_lines(text@),
            forall|j: int|
                #![trigger ranges@[j]]
                0 <= j < ranges@.len() ==> ranges@[j].0 <= ranges@[j].1 <= text@.len()
                    && text@.subrange(ranges@[j].0 as int, ranges@[j].1 as int) == lines[j],
            k <= ranges@.len(),
            rows.wf(),
            index_rows_of(lines.take(k as int)) == Ok::<
                Map<Seq<char>, (Option<Seq<char>>, Option<Seq<char>>)>,
                Seq<char>,
            >(rows@),
        decreases ranges@.len() - k,
    {
        let (a, b) = ranges[k];
        let line = text.substring_char(a, b);
        assert(lines.take(k + 1).drop_last() =~= lines.take(k as int));
        assert(lines.take(k + 1).last() == line@);
        match parse_json(line) {
            Ok(v) => match index_row_from_json(&v) {
                Some((id, row)) => {
                    rows.insert(id, row);
                },
                None => {},
            },
            Err(m) => {
                proof {
                    lemma_index_rows_error(lines, k + 1);
                }
                let mut message = String::from_str("restored session index is invalid: ");
                message.append(m.as_str());
                return Err(RehomeError { code: ErrorCode::RestoreFailed, message });
            },
        }
        k = k + 1;
    }
    assert(lines.take(ranges@.len() as int) =~= lines);
    Ok(rows)
}

/// A row of the restored thread database: its `cwd` and `rollout_path`.
#[derive(Debug, Clone, PartialEq, Eq)]
pub struct ThreadRow {
    pub cwd: Option<String>,
    pub rollout_path: Option<String>,
}

impl View for ThreadRow {
    type V = (Option<Seq<char>>, Option<Seq<char>>);

    open spec fn view(&self) -> (Option<Seq<char>>, Option<Seq<char>>) {
        (opt_view(self.cwd), opt_view(self.rollout_path))
    }
}

/// What the restored conversation metadata shows.
#[derive(Debug, Clone, Copy, PartialEq, Eq, Structural)]
pub struct BridgeVerification {
    pub session_index_valid: bool,
    pub sqlite_threads_valid: bool,
    pub path_mapping_valid: bool,
}

/// `rw` rewrites a project path inside the conversation `session`.
pub open spec fn rewrite_matches(rw: ReferenceRewrite, session: PlannedSession) -> bool {
    &&& rw.source_task_id == session.source_task_id
    &&& rw.kind == ReferenceRewriteKind::ProjectPath
    &&& rw.package_source@ == session.package_source@
}

/// The project paths the rewrites put into `session`, in order.
pub open spec fn project_paths_for(rws: Seq<ReferenceRewrite>, session: PlannedSession) -> Seq<
    Seq<char>,
>
    decreases rws.len(),
{
    if rws.len() == 0 {
        Seq::empty()
    } else {
        let before = project_paths_for(rws.drop_last(), session);
        if rewrite_matches(rws.last(), session) {
            before.push(rws.last().to@)
        } else {
            before
        }
    }
}

/// The project paths the plan's rewrites put into session `s`, in order.
/// The session's file only needs reading for the path check when there are
/// some.
pub fn session_project_paths(plan: &RestorePlan, s: usize) -> (r: Vec<String>)
    requires
        s < plan.sessions@.len(),
    ensures
        r@.map_values(|p: String| p@) == project_paths_for(
            plan.reference_rewrites@,
            plan.sessions@[s as int],
        ),
{
    let session = &plan.sessions[s];
    let n = plan.reference_rewrites.len();
    let mut out: Vec<String> = Vec::new();
    let mut i: usize = 0;
    while i < n
        invariant
            n == plan.reference_rewrites@.len(),
            s < plan.sessions@.len(),
            *session == plan.sessions@[s as int],
            i <= n,
            out@.map_values(|p: String| p@) == project_paths_for(
                plan.reference_rewrites@.take(i as int),
                *session,
            ),
        decreases n - i,
    {
        let rw = &plan.reference_rewrites[i];
        assert(plan.reference_rewrites@.take(i + 1).drop_last() =~= plan.reference_rewrites@.take(
            i as int,
        ));
        if rw.source_task_id == session.source_task_id && matches!(rw.kind, ReferenceRewriteKind::ProjectPath)
            && rw.package_source == session.package_source {
            out.push(rw.to.clone());
        }
        assert(out@.map_values(|p: String| p@) =~= project_paths_for(
            plan.reference_rewrites@.take(i + 1),
            *session,
        ));
        i = i + 1;
    }
    assert(plan.reference_rewrites@.take(n as int) =~= plan.reference_rewrites@);
    out
}

/// The key of a session's rows: its target task ID as text.
pub open spec fn session_key(session: PlannedSession) -> Seq<char> {
    uuid_text_of(session.target_task_id)
}

/// The session index has a row for `session` pointing at its restored file.
pub open spec fn index_row_ok(
    rows: Map<Seq<char>, (Option<Seq<char>>, Option<Seq<char>>)>,
    session: PlannedSession,
) -> bool {
    rows.contains_key(session_key(session)) && rows[session_key(session)].0 == Some(
        session.target@,
    )
}

/// The thread database has a row for `session` pointing at its restored file.
pub open spec fn thread_row_ok(
    rows: Map<Seq<char>, (Option<Seq<char>>, Option<Seq<char>>)>,
    session: PlannedSession,
) -> bool {
    rows.contains_key(session_key(session)) && rows[session_key(session)].1 == Some(
        session.target@,
    )
}

/// One field of the row a map holds for `session` (the second field when
/// `second`), or `None` when there is no such row.
pub open spec fn row_field(
    rows: Map<Seq<char>, (Option<Seq<char>>, Option<Seq<char>>)>,
    session: PlannedSession,
    second: bool,
) -> Option<Seq<char>> {
    if rows.contains_key(session_key(session)) {
        if second {
            rows[session_key(session)].1
        } else {
            rows[session_key(session)].0
        }
    } else {
        None
    }
}

/// Some of the session's JSON values contains `path`.
pub open spec fn values_contain(values: Seq<JsonValue>, path: Seq<char>) -> bool {
    exists|i: int| 0 <= i < values.len() && #[trigger] json_contains(values[i], path)
}

/// The path `p` is where the session is bound: its JSON mentions it, the
/// index row (when the index is checked and its row names a directory) names
/// it, and the thread row (when the database is checked) names it.
pub open spec fn path_bound(
    p: Seq<char>,
    values: Seq<JsonValue>,
    index_cwd: Option<Seq<char>>,
    thread_cwd: Option<Seq<char>>,
    check_index: bool,
    check_threads: bool,
) -> bool {
    &&& values_contain(values, p)
    &&& (!check_index || index_cwd is None || index_cwd == Some(p))
    &&& (!check_threads || thread_cwd == Some(p))
}

/// Session `s` is bound to one of the project paths rewritten into it, or
/// has none.
pub open spec fn session_mapped(
    plan: RestorePlan,
    index: Map<Seq<char>, (Option<Seq<char>>, Option<Seq<char>>)>,
    threads: Map<Seq<char>, (Option<Seq<char>>, Option<Seq<char>>)>,
    values: Seq<JsonValue>,
    s: int,
) -> bool {
    let session = plan.sessions@[s];
    let paths = project_paths_for(plan.reference_rewrites@, session);
    paths.len() == 0 || exists|j: int|
        0 <= j < paths.len() && #[trigger] path_bound(
            paths[j],
            values,
            row_field(index, session, true),
            row_field(threads, session, false),
            plan.bridge_verification.session_index is Some,
            plan.bridge_verification.sqlite_database is Some,
        )
}

fn opt_is(o: &Option<String>, s: &String) -> (r: bool)
    ensures
        r == (opt_view(*o) == Some(s@)),
{
    match o {
        Some(x) => *x == *s,
        None => false,
    }
}

fn values_contain_path(values: &Vec<JsonValue>, path: &String) -> (r: bool)
    ensures
        r == values_contain(values@, path@),
{
    let n = values.len();
    let mut i: usize = 0;
    while i < n
        invariant
            n == values@.len(),
            i <= n,
            forall|k: int| 0 <= k < i ==> !json_contains(#[trigger] values@[k], path@),
        decreases n - i,
    {
        if json_contains_string(&values[i], path) {
            return true;
        }
        i = i + 1;
    }
    false
}

fn field_of(row: Option<&IndexRow>) -> (r: Option<String>)
    ensures
        opt_view(r) == match row {
            Some(x) => opt_view(x.cwd),
            None => None,
        },
{
    match row {
        Some(x) => copy_opt(&x.cwd),
        None => None,
    }
}

fn copy_opt(o: &Option<String>) -> (r: Option<String>)
    ensures
        r == *o,
{
    match o {
        Some(x) => Some(x.clone()),
        None => None,
    }
}

/// Whether the restored conversation metadata holds together.
///
/// When the plan names a session index, every session must have an index
/// row pointing at its restored file; likewise for the thread database. Each
/// session with rewritten project paths must be bound to one of them (see
/// `path_bound`). `session_values` holds, for each session with rewritten
/// project paths, the JSON values of its restored file, one per line.
pub fn bridge_verification(
    plan: &RestorePlan,
    index_rows: &StrMap<IndexRow>,
    thread_rows: &StrMap<ThreadRow>,
    session_values: &Vec<Vec<JsonValue>>,
) -> (r: BridgeVerification)
    requires
        index_rows.wf(),
        thread_rows.wf(),
        session_values@.len() == plan.sessions@.len(),
    ensures
        r.session_index_valid == (plan.bridge_verification.session_index is Some ==> forall|i: int|
            0 <= i < plan.sessions@.len() ==> #[trigger] index_row_ok(
                index_rows@,
                plan.sessions@[i],
            )),
        r.sqlite_threads_valid == (plan.bridge_verification.sqlite_database is Some ==> forall|
            i: int,
        |
            0 <= i < plan.sessions@.len() ==> #[trigger] thread_row_ok(
                thread_rows@,
                plan.sessions@[i],
            )),
        r.path_mapping_valid == forall|i: int|
            0 <= i < plan.sessions@.len() ==> #[trigger] session_mapped(
                *plan,
                index_rows@,
                thread_rows@,
                session_values@[i]@,
                i,
            ),
{
    let check_index = plan.bridge_verification.session_index.is_some();
    let check_threads = plan.bridge_verification.sqlite_database.is_some();
    let n = plan.sessions.len();
    let mut index_valid = true;
    let mut threads_valid = true;
    let mut mapping_valid = true;
    let mut i: usize = 0;
    while i < n
        invariant
            n == plan.sessions@.len(),
            n == session_values@.len(),
            index_rows.wf(),
            thread_rows.wf(),
            check_index == plan.bridge_verification.session_index is Some,
            check_threads == plan.bridge_verification.sqlite_database is Some,
            i <= n,
            index_valid == forall|k: int|
                0 <= k < i ==> #[trigger] index_row_ok(index_rows@, plan.sessions@[k]),
            threads_valid == forall|k: int|
                0 <= k < i ==> #[trigger] thread_row_ok(thread_rows@, plan.sessions@[k]),
            mapping_valid == forall|k: int|
                0 <= k < i ==> #[trigger] session_mapped(
                    *plan,
                    index_rows@,
                    thread_rows@,
                    session_values@[k]@,
                    k,
                ),
        decreases n - i,
    {
        let session = &plan.sessions[i];
        let key = uuid_text(session.target_task_id);
        let index_row = index_rows.get(&key);
        let thread_row = thread_rows.get(&key);
        let index_ok = match index_row {
            Some(row) => opt_is(&row.rollout_path, &session.target),
            None => false,
        };
        let thread_ok = match thread_row {
            Some(row) => opt_is(&row.rollout_path, &session.target),
            None => false,
        };
        let index_cwd = field_of(index_row);
        let thread_cwd = match thread_row {
            Some(row) => copy_opt(&row.cwd),
            None => None,
        };
        let paths = session_project_paths(plan, i);
        let ghost pv = paths@.map_values(|p: String| p@);
        let values = &session_values[i];
        let mut mapped = paths.len() == 0;
        let mut j: usize = 0;
        while j < paths.len()
            invariant
                j <= paths@.len(),
                pv == paths@.map_values(|p: String| p@),
                mapped == (paths@.len() == 0 || exists|q: int|
                    0 <= q < j && #[trigger] path_bound(
                        pv[q],
                        values@,
                        opt_view(index_cwd),
                        opt_view(thread_cwd),
                        check_index,
                        check_threads,
                    )),
            decreases paths@.len() - j,
        {
            let p = &paths[j];
            let bound = values_contain_path(values, p) && (!check_index || index_cwd.is_none()
                || opt_is(&index_cwd, p)) && (!check_threads || opt_is(&thread_cwd, p));
            proof {
                assert(pv[j as int] == p@);
            }
            if bound {
                assert(path_bound(
                    pv[j as int],
                    values@,
                    opt_view(index_cwd),
                    opt_view(thread_cwd),
                    check_index,
                    check_threads,
                ));
                mapped = true;
            }
            j = j + 1;
        }
        proof {
            let session_v = plan.sessions@[i as int];
            assert(row_field(index_rows@, session_v, true) == opt_view(index_cwd));
            assert(row_field(thread_rows@, session_v, false) == opt_view(thread_cwd));
            assert(mapped == session_mapped(*plan, index_rows@, thread_rows@, values@, i as int));
            assert(index_ok == index_row_ok(index_rows@, session_v));
            assert(thread_ok == thread_row_ok(thread_rows@, session_v));
        }
        index_valid = index_valid && index_ok;
        threads_valid = threads_valid && thread_ok;
        mapping_valid = mapping_valid && mapped;
        i = i + 1;
    }
    BridgeVerification {
        session_index_valid: !check_index || index_valid,
        sqlite_threads_valid: !check_threads || threads_valid,
        path_mapping_valid: mapping_valid,
    }
}

/// `actual` (the hash of a file, `None` when it is missing) is `expected`,
/// ignoring ASCII case.
pub open spec fn hash_is(actual: Option<String>, expected: Seq<char>) -> bool {
    actual matches Some(a) && eq_ignore_case(a@, expected)
}

/// Whether `actual` (the hash of a file, `None` when it is missing) is
/// `expected`, ignoring ASCII case.
pub fn hash_matches(actual: &Option<String>, expected: &String) -> (r: bool)
    ensures
        r == hash_is(*actual, expected@),
{
    match actual {
        Some(a) => eq_ignore_ascii_case(a, expected),
        None => false,
    }
}

/// What checking a target the plan preserves needs next.
#[derive(Debug, Clone, PartialEq, Eq)]
pub enum PreservedCheck {
    /// The answer is known from what was found.
    Decided(bool),
    /// The target is a Skill directory: compare its tree hash with this one.
    CompareTreeHash(String),
    /// The target is a file: compare its hash with this one.
    CompareFileHash(String),
}

/// What checking the preserved target of `op`, found in `state`, needs.
///
/// A missing target matches when the plan expected none. A Skill bundle that
/// is no longer a real directory matches only when none was expected; a real
/// one matches when no hash was expected, and otherwise by tree hash. Any
/// other target must be a regular file with an expected hash, and matches by
/// file hash.
pub fn preserved_target_check(op: &PlannedOperation, state: &TargetState) -> (r: Result<
    PreservedCheck,
    RehomeError,
>)
    ensures
        match *state {
            TargetState::Missing => r == Ok::<PreservedCheck, RehomeError>(
                PreservedCheck::Decided(op.expected_previous_hash is None),
            ),
            TargetState::InspectFailed(m) => r matches Err(e) && e.code == ErrorCode::RestoreFailed
                && e.message@ == "could not inspect preserved target "@ + op.target@ + ": "@ + m@,
            TargetState::Present { is_link, is_dir, is_file, .. } => if op.operation_kind
                == OperationKind::SkillBundle {
                if is_link || !is_dir {
                    r == Ok::<PreservedCheck, RehomeError>(
                        PreservedCheck::Decided(op.expected_previous_hash is None),
                    )
                } else {
                    match op.expected_previous_hash {
                        None => r == Ok::<PreservedCheck, RehomeError>(
                            PreservedCheck::Decided(true),
                        ),
                        Some(x) => r matches Ok(PreservedCheck::CompareTreeHash(h)) && h == x,
                    }
                }
            } else if is_link || !is_file {
                r == Ok::<PreservedCheck, RehomeError>(PreservedCheck::Decided(false))
            } else {
                match op.expected_previous_hash {
                    None => r == Ok::<PreservedCheck, RehomeError>(PreservedCheck::Decided(false)),
                    Some(x) => r matches Ok(PreservedCheck::CompareFileHash(h)) && h == x,
                }
            },
        },
{
    match state {
        TargetState::Missing => Ok(PreservedCheck::Decided(op.expected_previous_hash.is_none())),
        TargetState::InspectFailed(m) => {
            let mut message = String::from_str("could not inspect preserved target ");
            message.append(op.target.as_str());
            message.append(": ");
            message.append(m.as_str());
            Err(restore_failed(message.as_str()))
        },
        TargetState::Present { is_link, is_dir, is_file, .. } => {
            if op.operation_kind == OperationKind::SkillBundle {
                if *is_link || !*is_dir {
                    return Ok(PreservedCheck::Decided(op.expected_previous_hash.is_none()));
                }
                match &op.expected_previous_hash {
                    None => Ok(PreservedCheck::Decided(true)),
                    Some(x) => Ok(PreservedCheck::CompareTreeHash(x.clone())),
                }
            } else {
                if *is_link || !*is_file {
                    return Ok(PreservedCheck::Decided(false));
                }
                match &op.expected_previous_hash {
                    None => Ok(PreservedCheck::Decided(false)),
                    Some(x) => Ok(PreservedCheck::CompareFileHash(x.clone())),
                }
            }
        },
    }
}

/// The indices of the plan's operations of `kind`, in order.
pub open spec fn operations_of_kind(plan: RestorePlan, kind: OperationKind, n: int) -> Seq<usize>
    decreases n,
{
    if n <= 0 {
        Seq::empty()
    } else if plan.operations@[n - 1].operation_kind == kind {
        operations_of_kind(plan, kind, n - 1).push((n - 1) as usize)
    } else {
        operations_of_kind(plan, kind, n - 1)
    }
}

/// The indices of the plan's operations of `kind`, in order.
pub fn operations_with_kind(plan: &RestorePlan, kind: OperationKind) -> (r: Vec<usize>)
    ensures
        r@ == operations_of_kind(*plan, kind, plan.operations@.len() as int),
{
    let n = plan.operations.len();
    let mut out: Vec<usize> = Vec::new();
    let mut i: usize = 0;
    while i < n
        invariant
            n == plan.operations@.len(),
            i <= n,
            out@ == operations_of_kind(*plan, kind, i as int),
        decreases n - i,
    {
        if plan.operations[i].operation_kind == kind {
            out.push(i);
        }
        i = i + 1;
    }
    out
}

/// How a restored Skill bundle is checked.
#[derive(Debug, Clone, PartialEq, Eq)]
pub enum BundleCheck {
    /// The check fails: the bundle was left in conflict.
    Fail,
    /// The bundle was preserved: check it as a preserved target.
    CheckPreserved,
    /// Inspect the restored bundle and compare its tree hash with this one.
    Inspect(String),
}

/// How the restored Skill bundle of `op` is checked; fails when a written
/// bundle has no expected final tree hash.
pub fn restored_bundle_check(op: &PlannedOperation) -> (r: Result<BundleCheck, RehomeError>)
    ensures
        if op.action == ChangeKind::Conflict {
            r == Ok::<BundleCheck, RehomeError>(BundleCheck::Fail)
        } else if op.action == ChangeKind::Preserve {
            r == Ok::<BundleCheck, RehomeError>(BundleCheck::CheckPreserved)
        } else {
            match op.expected_final_hash {
                Some(h) => r matches Ok(BundleCheck::Inspect(x)) && x == h,
                None => r matches Err(e) && e.code == ErrorCode::RestoreFailed && e.message@
                    == "Skill bundle final tree hash is missing"@,
            }
        },
{
    if op.action == ChangeKind::Conflict {
        return Ok(BundleCheck::Fail);
    }
    if op.action == ChangeKind::Preserve {
        return Ok(BundleCheck::CheckPreserved);
    }
    match &op.expected_final_hash {
        Some(h) => Ok(BundleCheck::Inspect(h.clone())),
        None => Err(restore_failed("Skill bundle final tree hash is missing")),
    }
}

/// Whether a restored Skill bundle found in `state` is a real directory,
/// whose tree hash is to be compared next.
pub fn restored_bundle_present(state: &TargetState) -> (r: Result<bool, RehomeError>)
    ensures
        match *state {
            TargetState::Missing => r == Ok::<bool, RehomeError>(false),
            TargetState::InspectFailed(m) => r matches Err(e) && e.code == ErrorCode::RestoreFailed
                && e.message@ == "could not inspect restored Skill bundle: "@ + m@,
            TargetState::Present { is_link, is_dir, .. } => r == Ok::<bool, RehomeError>(
                !is_link && is_dir,
            ),
        },
{
    match state {
        TargetState::Missing => Ok(false),
        TargetState::InspectFailed(m) => {
            let mut message = String::from_str("could not inspect restored Skill bundle: ");
            message.append(m.as_str());
            Err(restore_failed(message.as_str()))
        },
        TargetState::Present { is_link, is_dir, .. } => Ok(!*is_link && *is_dir),
    }
}

/// Whether the `SKILL.md` of a restored Skill, found in `state`, is a
/// regular file.
pub fn restored_marker_present(state: &TargetState) -> (r: Result<bool, RehomeError>)
    ensures
        match *state {
            TargetState::Missing => r == Ok::<bool, RehomeError>(false),
            TargetState::InspectFailed(m) => r matches Err(e) && e.code == ErrorCode::RestoreFailed
                && e.message@ == "could not inspect restored SKILL.md: "@ + m@,
            TargetState::Present { is_link, is_file, .. } => r == Ok::<bool, RehomeError>(
                !is_link && is_file,
            ),
        },
{
    match state {
        TargetState::Missing => Ok(false),
        TargetState::InspectFailed(m) => {
            let mut message = String::from_str("could not inspect restored SKILL.md: ");
            message.append(m.as_str());
            Err(restore_failed(message.as_str()))
        },
        TargetState::Present { is_link, is_file, .. } => Ok(!*is_link && *is_file),
    }
}

/// How a restored file is checked.
#[derive(Debug, Clone, PartialEq, Eq)]
pub enum FileCheck {
    /// The operation is not checked here.
    Skip,
    /// The file was preserved: check it as a preserved target.
    CheckPreserved,
    /// Compare the file's hash with this one.
    CompareFileHash(String),
}

/// How the plain file of operation `i` is checked after the restore: files
/// in conflict, other kinds and bridge-written files are skipped; preserved
/// files are checked as such; the others against their payload's hash in
/// `payload_hashes` (keyed by package source), which must be there.
pub fn plain_file_check(plan: &RestorePlan, i: usize, payload_hashes: &StrMap<String>) -> (r: Result<
    FileCheck,
    RehomeError,
>)
    requires
        i < plan.operations@.len(),
        payload_hashes.wf(),
    ensures
        ({
            let op = plan.operations@[i as int];
            if op.action == ChangeKind::Conflict || op.operation_kind != OperationKind::File
                || is_bridge_source(*plan, op.package_source@) {
                r == Ok::<FileCheck, RehomeError>(FileCheck::Skip)
            } else if op.action == ChangeKind::Preserve {
                r == Ok::<FileCheck, RehomeError>(FileCheck::CheckPreserved)
            } else if payload_hashes@.contains_key(op.package_source@) {
                r matches Ok(FileCheck::CompareFileHash(h)) && h@ == payload_hashes@[op.package_source@]
            } else {
                r matches Err(e) && e.code == ErrorCode::RestoreFailed && e.message@
                    == "verified payload metadata is missing"@
            }
        }),
{
    let op = &plan.operations[i];
    if op.action == ChangeKind::Conflict || op.operation_kind != OperationKind::File
        || is_bridge_operation(plan, &op.package_source) {
        return Ok(FileCheck::Skip);
    }
    if op.action == ChangeKind::Preserve {
        return Ok(FileCheck::CheckPreserved);
    }
    match payload_hashes.get(&op.package_source) {
        Some(h) => Ok(FileCheck::CompareFileHash(h.clone())),
        None => Err(restore_failed("verified payload metadata is missing")),
    }
}

/// How the project file of operation `i` is checked after the restore: only
/// plain files under the projects root that are not in conflict are checked,
/// against their payload's hash, which must be there.
pub fn project_file_check(
    os: SourceOs,
    plan: &RestorePlan,
    i: usize,
    payload_hashes: &StrMap<String>,
) -> (r: Result<FileCheck, RehomeError>)
    requires
        i < plan.operations@.len(),
        payload_hashes.wf(),
    ensures
        ({
            let op = plan.operations@[i as int];
            if !path_starts_with(os, op.target@, plan.projects_root@) || op.operation_kind
                != OperationKind::File || op.action == ChangeKind::Conflict {
                r == Ok::<FileCheck, RehomeError>(FileCheck::Skip)
            } else if payload_hashes@.contains_key(op.package_source@) {
                r matches Ok(FileCheck::CompareFileHash(h)) && h@ == payload_hashes@[op.package_source@]
            } else {
                r matches Err(e) && e.code == ErrorCode::RestoreFailed && e.message@
                    == "project payload metadata is missing"@
            }
        }),
{
    let op = &plan.operations[i];
    if !path_is_within(os, &op.target, &plan.projects_root) || op.operation_kind != OperationKind::File
        || op.action == ChangeKind::Conflict {
        return Ok(FileCheck::Skip);
    }
    match payload_hashes.get(&op.package_source) {
        Some(h) => Ok(FileCheck::CompareFileHash(h.clone())),
        None => Err(restore_failed("project payload metadata is missing")),
    }
}

/// The package read back after the restore is the planned one: its checksum
/// holds, its ID is the plan's, and its archive hash is the plan's ignoring
/// ASCII case.
pub fn package_still_valid(
    checksum_valid: bool,
    package_id: u128,
    archive_hash: &String,
    plan: &RestorePlan,
) -> (r: bool)
    ensures
        r == (checksum_valid && package_id == plan.package_id && eq_ignore_case(
            archive_hash@,
            plan.archive_hash@,
        )),
{
    checksum_valid && package_id == plan.package_id && eq_ignore_ascii_case(
        archive_hash,
        &plan.archive_hash,
    )
}

/// The report of the checks after a restore. Registration is not known
/// yet, and Skill discovery and functional sampling are not run.
pub fn verification_report(
    package_checksum_valid: bool,
    files_valid: bool,
    sessions_valid: bool,
    bridge: BridgeVerification,
    forbidden_files_absent: bool,
    project_files_valid: bool,
    shared_skill_files_valid: bool,
    skill_lock_merge: VerificationStatus,
) -> (r: VerificationReport)
    ensures
        r == (VerificationReport {
            package_checksum_valid,
            files_valid,
            sessions_valid,
            session_index_valid: bridge.session_index_valid,
            sqlite_threads_valid: bridge.sqlite_threads_valid,
            path_mapping_valid: bridge.path_mapping_valid,
            forbidden_files_absent,
            project_files_valid,
            app_registration_valid: false,
            app_visible_ready: false,
            shared_skill_files_valid,
            codex_skill_discovery: VerificationStatus::NotRun,
            skill_lock_merge,
            functional_sampling: VerificationStatus::NotRun,
        }),
{
    VerificationReport {
        package_checksum_valid,
        files_valid,
        sessions_valid,
        session_index_valid: bridge.session_index_valid,
        sqlite_threads_valid: bridge.sqlite_threads_valid,
        path_mapping_valid: bridge.path_mapping_valid,
        forbidden_files_absent,
        project_files_valid,
        app_registration_valid: false,
        app_visible_ready: false,
        shared_skill_files_valid,
        codex_skill_discovery: VerificationStatus::NotRun,
        skill_lock_merge,
        functional_sampling: VerificationStatus::NotRun,
    }
}

/// Every registration succeeded.
pub open spec fn all_registered(regs: Seq<ProjectRegistration>) -> bool {
    forall|i: int| 0 <= i < regs.len() ==> (#[trigger] regs[i]).status == RegistrationStatus::Registered
}

/// The report once projects were registered: registration is valid when
/// registration was asked for and every project registered, and the restore
/// is ready in the app when, in addition, every data check passed.
pub fn with_registrations(
    report: VerificationReport,
    register_projects: bool,
    registrations: &Vec<ProjectRegistration>,
) -> (r: VerificationReport)
    ensures
        r == (VerificationReport {
            app_registration_valid: register_projects && all_registered(registrations@),
            app_visible_ready: data_checks_passed(report) && register_projects && all_registered(
                registrations@,
            ),
            ..report
        }),
{
    let n = registrations.len();
    let mut all = true;
    let mut i: usize = 0;
    while i < n
        invariant
            n == registrations@.len(),
            i <= n,
            all == forall|k: int|
                0 <= k < i ==> (#[trigger] registrations@[k]).status
                    == RegistrationStatus::Registered,
        decreases n - i,
    {
        let ok = matches!(registrations[i].status, RegistrationStatus::Registered);
        all = all && ok;
        i = i + 1;
    }
    let registered = register_projects && all;
    let passed = report.package_checksum_valid && report.files_valid && report.sessions_valid
        && report.session_index_valid && report.sqlite_threads_valid && report.path_mapping_valid
        && report.forbidden_files_absent && report.project_files_valid
        && report.shared_skill_files_valid && !matches!(
        report.skill_lock_merge,
        VerificationStatus::Failed
    );
    VerificationReport {
        app_registration_valid: registered,
        app_visible_ready: passed && registered,
        ..report
    }
}

/// The error a preserved target that no longer matches the plan gives.
pub fn preserved_target_changed(op: &PlannedOperation) -> (r: RehomeError)
    ensures
        r.code == ErrorCode::RestoreFailed,
        r.message@ == "preserved target changed after planning: "@ + op.target@,
{
    let mut message = String::from_str("preserved target changed after planning: ");
    message.append(op.target.as_str());
    restore_failed(message.as_str())
}

} // verus!
