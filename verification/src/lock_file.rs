//! Reading the shared Skills lock file of the `skills` CLI.
//!
//! The caller reads the file's bytes; these functions parse them and decide
//! what the document is worth: only a version 3 document with the known
//! top-level fields is read, and within it only the entries that read as v3
//! entries.
use vstd::prelude::*;
use crate::digest::{decimal, decimal_text};
use crate::json::{field, find_field, json_as_u64, json_parse_bytes, json_u64, parse_json_bytes, JsonValue};
use crate::lock_sanitize::{is_safe_lock_entry, sanitize_lock_entry};
use crate::models::{opt_view, LockEntryView, SkillLockEntryV3, SkillLockFileV3, SkillLockStatus};
use crate::strmap::StrMap;

verus! {

/// How the shared Skills lock file was found.
#[derive(Debug, Clone, Copy, PartialEq, Eq, Structural)]
pub enum LockLoadStatus {
    /// Read as a v3 document.
    Available,
    /// There is no lock file.
    Missing,
    /// Unreadable, not JSON, or not a lock document.
    Invalid,
    /// A lock document of another version.
    Unsupported,
}

/// The top-level fields a v3 lock document may have.
pub open spec fn is_lock_field(k: Seq<char>) -> bool {
    k == "version"@ || k == "skills"@ || k == "dismissed"@ || k == "lastSelectedAgents"@
}

/// A lock file's JSON object, as plain values.
#[derive(Debug, Clone, PartialEq)]
pub struct LockDocument {
    /// The object's keys.
    pub keys: Vec<String>,
    /// `version`, when it is an integer from 0 to `u64::MAX`.
    pub version: Option<u64>,
    /// `skills`, when it is an object: each key, with its value when that
    /// reads as a v3 entry.
    pub skills: Option<Vec<(String, Option<SkillLockEntryV3>)>>,
    /// `dismissed`, when present.
    pub dismissed: Option<JsonValue>,
    /// `lastSelectedAgents`, when present.
    pub last_selected_agents: Option<JsonValue>,
}

/// The members a lock entry may have.
pub open spec fn is_entry_key(k: Seq<char>) -> bool {
    ||| k == "source"@
    ||| k == "sourceType"@
    ||| k == "sourceUrl"@
    ||| k == "ref"@
    ||| k == "skillPath"@
    ||| k == "skillFolderHash"@
    ||| k == "installedAt"@
    ||| k == "updatedAt"@
    ||| k == "pluginName"@
}

/// The string a required member holds, when it is a string.
pub open spec fn required_text(v: Option<JsonValue>) -> Option<String> {
    match v {
        Some(JsonValue::Text(t)) => Some(t),
        _ => None,
    }
}

/// An optional member is absent, null or a string.
pub open spec fn optional_text_ok(v: Option<JsonValue>) -> bool {
    match v {
        None => true,
        Some(JsonValue::Null) => true,
        Some(JsonValue::Text(_)) => true,
        _ => false,
    }
}

/// The members of an entry are all known, each named once, the required ones
/// strings and the optional ones absent, null or strings.
pub open spec fn entry_fields_ok(fields: Seq<(String, JsonValue)>) -> bool {
    &&& forall|i: int| 0 <= i < fields.len() ==> is_entry_key(#[trigger] fields[i].0@)
    &&& forall|i: int, j: int|
        0 <= i < j < fields.len() ==> #[trigger] fields[i].0@ != #[trigger] fields[j].0@
    &&& required_text(field(fields, "source"@)) is Some
    &&& required_text(field(fields, "sourceType"@)) is Some
    &&& required_text(field(fields, "sourceUrl"@)) is Some
    &&& required_text(field(fields, "skillFolderHash"@)) is Some
    &&& required_text(field(fields, "installedAt"@)) is Some
    &&& required_text(field(fields, "updatedAt"@)) is Some
    &&& optional_text_ok(field(fields, "ref"@))
    &&& optional_text_ok(field(fields, "skillPath"@))
    &&& optional_text_ok(field(fields, "pluginName"@))
}

/// The entry an object's members give.
pub open spec fn entry_from_fields(fields: Seq<(String, JsonValue)>) -> SkillLockEntryV3 {
    SkillLockEntryV3 {
        source: required_text(field(fields, "source"@))->0,
        source_type: required_text(field(fields, "sourceType"@))->0,
        source_url: required_text(field(fields, "sourceUrl"@))->0,
        git_ref: required_text(field(fields, "ref"@)),
        skill_path: required_text(field(fields, "skillPath"@)),
        skill_folder_hash: required_text(field(fields, "skillFolderHash"@))->0,
        installed_at: required_text(field(fields, "installedAt"@))->0,
        updated_at: required_text(field(fields, "updatedAt"@))->0,
        plugin_name: required_text(field(fields, "pluginName"@)),
    }
}

/// An array reads as an entry when it lists the members in order: eight
/// or nine items, the required ones strings and the optional ones null or
/// strings.
pub open spec fn entry_items_ok(items: Seq<JsonValue>) -> bool {
    &&& items.len() == 8 || items.len() == 9
    &&& required_text(Some(items[0])) is Some
    &&& required_text(Some(items[1])) is Some
    &&& required_text(Some(items[2])) is Some
    &&& optional_text_ok(Some(items[3]))
    &&& optional_text_ok(Some(items[4]))
    &&& required_text(Some(items[5])) is Some
    &&& required_text(Some(items[6])) is Some
    &&& required_text(Some(items[7])) is Some
    &&& items.len() == 9 ==> optional_text_ok(Some(items[8]))
}

/// The entry an array of members in order gives.
pub open spec fn entry_from_items(items: Seq<JsonValue>) -> SkillLockEntryV3 {
    SkillLockEntryV3 {
        source: required_text(Some(items[0]))->0,
        source_type: required_text(Some(items[1]))->0,
        source_url: required_text(Some(items[2]))->0,
        git_ref: required_text(Some(items[3])),
        skill_path: required_text(Some(items[4])),
        skill_folder_hash: required_text(Some(items[5]))->0,
        installed_at: required_text(Some(items[6]))->0,
        updated_at: required_text(Some(items[7]))->0,
        plugin_name: if items.len() == 9 {
            required_text(Some(items[8]))
        } else {
            None
        },
    }
}

/// The v3 entry a JSON value reads as, when it reads as one: an object with
/// the entry's members (camel-case names, no others), or an array of them in
/// order.
pub open spec fn lock_entry_of(v: JsonValue) -> Option<SkillLockEntryV3> {
    match v {
        JsonValue::Object(fields) => if entry_fields_ok(fields@) {
            Some(entry_from_fields(fields@))
        } else {
            None
        },
        JsonValue::Array(items) => if entry_items_ok(items@) {
            Some(entry_from_items(items@))
        } else {
            None
        },
        _ => None,
    }
}

fn text_of(v: &JsonValue) -> (r: Option<String>)
    ensures
        r == required_text(Some(*v)),
{
    match v {
        JsonValue::Text(t) => Some(t.clone()),
        _ => None,
    }
}

fn optional_ok(v: &JsonValue) -> (r: bool)
    ensures
        r == optional_text_ok(Some(*v)),
{
    match v {
        JsonValue::Null => true,
        JsonValue::Text(_) => true,
        _ => false,
    }
}

fn member_text(fields: &Vec<(String, JsonValue)>, key: &str) -> (r: Option<String>)
    ensures
        r == required_text(field(fields@, key@)),
{
    match find_field(fields, key) {
        Some(i) => text_of(&fields[i].1),
        None => None,
    }
}

fn member_optional_ok(fields: &Vec<(String, JsonValue)>, key: &str) -> (r: bool)
    ensures
        r == optional_text_ok(field(fields@, key@)),
{
    match find_field(fields, key) {
        Some(i) => optional_ok(&fields[i].1),
        None => true,
    }
}

fn entry_key_text(k: &String) -> (r: bool)
    ensures
        r == is_entry_key(k@),
{
    *k == String::from_str("source") || *k == String::from_str("sourceType") || *k
        == String::from_str("sourceUrl") || *k == String::from_str("ref") || *k == String::from_str(
        "skillPath",
    ) || *k == String::from_str("skillFolderHash") || *k == String::from_str("installedAt") || *k
        == String::from_str("updatedAt") || *k == String::from_str("pluginName")
}

fn keys_known_and_distinct(fields: &Vec<(String, JsonValue)>) -> (r: bool)
    ensures
        r == ((forall|i: int| 0 <= i < fields@.len() ==> is_entry_key(#[trigger] fields@[i].0@))
            && (forall|i: int, j: int|
            0 <= i < j < fields@.len() ==> #[trigger] fields@[i].0@ != #[trigger] fields@[j].0@)),
{
    let n = fields.len();
    let mut i: usize = 0;
    while i < n
        invariant
            n == fields@.len(),
            i <= n,
            forall|a: int| 0 <= a < i ==> is_entry_key(#[trigger] fields@[a].0@),
            forall|a: int, b: int| 0 <= a < b < n && a < i ==> #[trigger] fields@[a].0@ != #[trigger] fields@[b].0@,
        decreases n - i,
    {
        if !entry_key_text(&fields[i].0) {
            return false;
        }
        let mut j: usize = i + 1;
        while j < n
            invariant
                n == fields@.len(),
                i < n,
                i < j <= n,
                forall|b: int| i < b < j ==> fields@[i as int].0@ != #[trigger] fields@[b].0@,
            decreases n - j,
        {
            if fields[i].0 == fields[j].0 {
                return false;
            }
            j = j + 1;
        }
        i = i + 1;
    }
    true
}

/// The v3 entry a JSON value reads as, when it reads as one (see
/// `lock_entry_of`).
pub fn lock_entry_from_json(v: &JsonValue) -> (r: Option<SkillLockEntryV3>)
    ensures
        r == lock_entry_of(*v),
{
    match v {
        JsonValue::Object(fields) => {
            if !keys_known_and_distinct(fields) || !member_optional_ok(fields, "ref")
                || !member_optional_ok(fields, "skillPath") || !member_optional_ok(
                fields,
                "pluginName",
            ) {
                return None;
            }
            let source = match member_text(fields, "source") {
                Some(t) => t,
                None => return None,
            };
            let source_type = match member_text(fields, "sourceType") {
                Some(t) => t,
                None => return None,
            };
            let source_url = match member_text(fields, "sourceUrl") {
                Some(t) => t,
                None => return None,
            };
            let skill_folder_hash = match member_text(fields, "skillFolderHash") {
                Some(t) => t,
                None => return None,
            };
            let installed_at = match member_text(fields, "installedAt") {
                Some(t) => t,
                None => return None,
            };
            let updated_at = match member_text(fields, "updatedAt") {
                Some(t) => t,
                None => return None,
            };
            Some(
                SkillLockEntryV3 {
                    source,
                    source_type,
                    source_url,
                    git_ref: member_text(fields, "ref"),
                    skill_path: member_text(fields, "skillPath"),
                    skill_folder_hash,
                    installed_at,
                    updated_at,
                    plugin_name: member_text(fields, "pluginName"),
                },
            )
        },
        JsonValue::Array(items) => {
            let n = items.len();
            if n != 8 && n != 9 {
                return None;
            }
            if !optional_ok(&items[3]) || !optional_ok(&items[4]) || (n == 9 && !optional_ok(
                &items[8],
            )) {
                return None;
            }
            let source = match text_of(&items[0]) {
                Some(t) => t,
                None => return None,
            };
            let source_type = match text_of(&items[1]) {
                Some(t) => t,
                None => return None,
            };
            let source_url = match text_of(&items[2]) {
                Some(t) => t,
                None => return None,
            };
            let skill_folder_hash = match text_of(&items[5]) {
                Some(t) => t,
                None => return None,
            };
            let installed_at = match text_of(&items[6]) {
                Some(t) => t,
                None => return None,
            };
            let updated_at = match text_of(&items[7]) {
                Some(t) => t,
                None => return None,
            };
            Some(
                SkillLockEntryV3 {
                    source,
                    source_type,
                    source_url,
                    git_ref: text_of(&items[3]),
                    skill_path: text_of(&items[4]),
                    skill_folder_hash,
                    installed_at,
                    updated_at,
                    plugin_name: if n == 9 {
                        text_of(&items[8])
                    } else {
                        None
                    },
                },
            )
        },
        _ => None,
    }
}

/// What reading the lock file gave.
#[derive(Debug, Clone, PartialEq)]
pub enum LockRead {
    /// There is no file.
    NotFound,
    /// The file could not be read; the message says why.
    ReadFailed(String),
    /// The content is not JSON.
    NotJson,
    /// The content is JSON but not an object.
    NotObject,
    /// The content is a JSON object.
    Object(LockDocument),
}

/// `doc` is the lock document the object with `fields` gives: its keys in
/// order, `version` when it is an unsigned 64-bit integer, `skills` when it is
/// an object (each key with the entry its value reads as), and `dismissed` and
/// `lastSelectedAgents` when present.
pub open spec fn is_document_of(doc: LockDocument, fields: Seq<(String, JsonValue)>) -> bool {
    &&& doc.keys@.len() == fields.len()
    &&& forall|i: int| 0 <= i < fields.len() ==> #[trigger] doc.keys@[i] == fields[i].0
    &&& doc.version == match field(fields, "version"@) {
        Some(v) => json_as_u64(v),
        None => None,
    }
    &&& match field(fields, "skills"@) {
        Some(JsonValue::Object(entries)) => doc.skills matches Some(list) && list@.len()
            == entries@.len() && forall|i: int|
            0 <= i < entries@.len() ==> #[trigger] list@[i].0 == entries@[i].0 && list@[i].1
                == lock_entry_of(entries@[i].1),
        _ => doc.skills is None,
    }
    &&& doc.dismissed == field(fields, "dismissed"@)
    &&& doc.last_selected_agents == field(fields, "lastSelectedAgents"@)
}

fn read_entry_list(entries: &Vec<(String, JsonValue)>) -> (r: Vec<(String, Option<SkillLockEntryV3>)>)
    ensures
        r@.len() == entries@.len(),
        forall|i: int|
            0 <= i < entries@.len() ==> #[trigger] r@[i].0 == entries@[i].0 && r@[i].1
                == lock_entry_of(entries@[i].1),
{
    let mut list: Vec<(String, Option<SkillLockEntryV3>)> = Vec::new();
    let mut i: usize = 0;
    while i < entries.len()
        invariant
            i <= entries@.len(),
            list@.len() == i,
            forall|k: int|
                0 <= k < i ==> #[trigger] list@[k].0 == entries@[k].0 && list@[k].1
                    == lock_entry_of(entries@[k].1),
        decreases entries@.len() - i,
    {
        let entry = lock_entry_from_json(&entries[i].1);
        list.push((entries[i].0.clone(), entry));
        i = i + 1;
    }
    list
}

/// The lock document the object with `fields` gives (see `is_document_of`).
pub fn document_from_fields(fields: Vec<(String, JsonValue)>) -> (doc: LockDocument)
    ensures
        is_document_of(doc, fields@),
{
    let mut keys: Vec<String> = Vec::new();
    let mut i: usize = 0;
    while i < fields.len()
        invariant
            i <= fields@.len(),
            keys@.len() == i,
            forall|k: int| 0 <= k < i ==> #[trigger] keys@[k] == fields@[k].0,
        decreases fields@.len() - i,
    {
        keys.push(fields[i].0.clone());
        i = i + 1;
    }
    let version = match find_field(&fields, "version") {
        Some(k) => json_u64(&fields[k].1),
        None => None,
    };
    let skills = match find_field(&fields, "skills") {
        Some(k) => match &fields[k].1 {
            JsonValue::Object(entries) => Some(read_entry_list(entries)),
            _ => None,
        },
        None => None,
    };
    let di = find_field(&fields, "dismissed");
    let ai = find_field(&fields, "lastSelectedAgents");
    let ghost orig = fields@;
    proof {
        reveal_strlit("dismissed");
        reveal_strlit("lastSelectedAgents");
    }
    let mut rest = fields;
    let (dismissed, last_selected_agents) = match (di, ai) {
        (Some(d), Some(a)) => {
            assert(d != a) by {
                reveal_strlit("dismissed");
                reveal_strlit("lastSelectedAgents");
                assert("dismissed"@.len() != "lastSelectedAgents"@.len());
            }
            if d > a {
                let (_, dv) = rest.remove(d);
                let (_, av) = rest.remove(a);
                (Some(dv), Some(av))
            } else {
                let (_, av) = rest.remove(a);
                let (_, dv) = rest.remove(d);
                (Some(dv), Some(av))
            }
        },
        (Some(d), None) => {
            let (_, dv) = rest.remove(d);
            (Some(dv), None)
        },
        (None, Some(a)) => {
            let (_, av) = rest.remove(a);
            (None, Some(av))
        },
        (None, None) => (None, None),
    };
    LockDocument { keys, version, skills, dismissed, last_selected_agents }
}

/// What the bytes of the lock file read as: not JSON, JSON that is not an
/// object, or the lock document of an object (see `is_document_of`).
pub fn lock_read_of_bytes(bytes: &[u8]) -> (r: LockRead)
    ensures
        match json_parse_bytes(bytes@) {
            None => r == LockRead::NotJson,
            Some(JsonValue::Object(fields)) => r matches LockRead::Object(doc) && is_document_of(
                doc,
                fields@,
            ),
            Some(_) => r == LockRead::NotObject,
        },
{
    match parse_json_bytes(bytes) {
        None => LockRead::NotJson,
        Some(JsonValue::Object(fields)) => LockRead::Object(document_from_fields(fields)),
        Some(_) => LockRead::NotObject,
    }
}

/// A loaded lock file: the document when it is available, how it was found,
/// and a warning for the user.
#[derive(Debug, Clone, PartialEq)]
pub struct LoadedLock {
    pub lock: Option<SkillLockFileV3>,
    pub status: LockLoadStatus,
    pub warning: Option<String>,
}

/// The entries that read as v3 entries, by key.
pub open spec fn entries_map(s: Seq<(String, Option<SkillLockEntryV3>)>) -> Map<
    Seq<char>,
    LockEntryView,
>
    decreases s.len(),
{
    if s.len() == 0 {
        Map::empty()
    } else {
        match s.last().1 {
            Some(e) => entries_map(s.drop_last()).insert(s.last().0@, e@),
            None => entries_map(s.drop_last()),
        }
    }
}

/// The number of entries that do not read as v3 entries.
pub open spec fn unreadable_count(s: Seq<(String, Option<SkillLockEntryV3>)>) -> nat
    decreases s.len(),
{
    if s.len() == 0 {
        0
    } else {
        unreadable_count(s.drop_last()) + if s.last().1 is None {
            1nat
        } else {
            0nat
        }
    }
}

/// The warning about `n` entries that were left out.
pub open spec fn ignored_entries_warning(n: nat) -> Seq<char> {
    "Ignored "@ + decimal(n)
        + " shared Skill lock entries with unsupported or malformed fields; their content can still migrate"@
}

/// The warning about a lock document of another version.
pub open spec fn unsupported_version_warning(v: u64) -> Seq<char> {
    "Shared Skills lock version "@ + decimal(v as nat) + " is unsupported; only v3 is read"@
}

/// `r` reports an unusable lock with `status` and the warning `w`.
pub open spec fn unusable(r: LoadedLock, status: LockLoadStatus, w: Seq<char>) -> bool {
    r.lock is None && r.status == status && opt_view(r.warning) == Some(w)
}

/// `r` is what loading the lock object `doc` gives.
pub open spec fn loaded_from_document(r: LoadedLock, doc: LockDocument) -> bool {
    if exists|i: int| 0 <= i < doc.keys@.len() && !is_lock_field(#[trigger] doc.keys@[i]@) {
        unusable(r, LockLoadStatus::Invalid, "Shared Skills lock has unsupported top-level fields"@)
    } else {
        match doc.version {
            None => unusable(r, LockLoadStatus::Invalid, "Shared Skills lock has no numeric version"@),
            Some(v) => if v != 3 {
                unusable(r, LockLoadStatus::Unsupported, unsupported_version_warning(v))
            } else {
                match doc.skills {
                    None => unusable(
                        r,
                        LockLoadStatus::Invalid,
                        "Shared Skills lock has no skills object"@,
                    ),
                    Some(list) => {
                        &&& r.status == LockLoadStatus::Available
                        &&& r.lock matches Some(l) && {
                            &&& l.version == 3
                            &&& l.skills.wf()
                            &&& l.skills@ == entries_map(list@)
                            &&& l.dismissed == doc.dismissed
                            &&& l.last_selected_agents == doc.last_selected_agents
                        }
                        &&& opt_view(r.warning) == if unreadable_count(list@) > 0 {
                            Some(ignored_entries_warning(unreadable_count(list@)))
                        } else {
                            None
                        }
                    },
                }
            },
        }
    }
}

fn unusable_lock(status: LockLoadStatus, warning: String) -> (r: LoadedLock)
    ensures
        unusable(r, status, warning@),
{
    LoadedLock { lock: None, status, warning: Some(warning) }
}

fn is_lock_field_text(k: &String) -> (r: bool)
    ensures
        r == is_lock_field(k@),
{
    let version = String::from_str("version");
    let skills = String::from_str("skills");
    let dismissed = String::from_str("dismissed");
    let agents = String::from_str("lastSelectedAgents");
    *k == version || *k == skills || *k == dismissed || *k == agents
}

/// The entries of `list` that read as v3 entries, and how many do not.
fn read_entries(list: &Vec<(String, Option<SkillLockEntryV3>)>) -> (r: (StrMap<SkillLockEntryV3>, u64))
    ensures
        r.0.wf(),
        r.0@ == entries_map(list@),
        r.1 == unreadable_count(list@),
{
    let n = list.len();
    let mut skills: StrMap<SkillLockEntryV3> = StrMap::new();
    let mut ignored: u64 = 0;
    let mut i: usize = 0;
    while i < n
        invariant
            n == list@.len(),
            i <= n,
            skills.wf(),
            skills@ == entries_map(list@.take(i as int)),
            ignored == unreadable_count(list@.take(i as int)),
            ignored <= i,
        decreases n - i,
    {
        assert(list@.take(i + 1).drop_last() =~= list@.take(i as int));
        let (key, entry) = &list[i];
        match entry {
            Some(e) => {
                skills.insert(key.clone(), e.copy());
            },
            None => {
                ignored = ignored + 1;
            },
        }
        i = i + 1;
    }
    assert(list@.take(n as int) =~= list@);
    (skills, ignored)
}

/// What the lock file is worth, from what reading it gave.
///
/// A missing file is `Missing`, with no warning. An unreadable file, content
/// that is not a JSON object, an object with fields other than `version`,
/// `skills`, `dismissed` and `lastSelectedAgents`, one without an integer
/// `version`, and one without a `skills` object are `Invalid`; a version other
/// than 3 is `Unsupported`; each with a warning. Otherwise the lock is
/// `Available` with the entries that read as v3 entries, and a warning counts
/// the others.
pub fn load_lock(read: LockRead) -> (r: LoadedLock)
    ensures
        match read {
            LockRead::NotFound => r.lock is None && r.status == LockLoadStatus::Missing
                && r.warning is None,
            LockRead::ReadFailed(m) => unusable(
                r,
                LockLoadStatus::Invalid,
                "Could not read shared Skills lock: "@ + m@,
            ),
            LockRead::NotJson => unusable(
                r,
                LockLoadStatus::Invalid,
                "Shared Skills lock is invalid JSON"@,
            ),
            LockRead::NotObject => unusable(
                r,
                LockLoadStatus::Invalid,
                "Shared Skills lock is not a JSON object"@,
            ),
            LockRead::Object(doc) => loaded_from_document(r, doc),
        },
{
    match read {
        LockRead::NotFound => LoadedLock { lock: None, status: LockLoadStatus::Missing, warning: None },
        LockRead::ReadFailed(m) => {
            let mut warning = String::from_str("Could not read shared Skills lock: ");
            warning.append(m.as_str());
            unusable_lock(LockLoadStatus::Invalid, warning)
        },
        LockRead::NotJson => unusable_lock(
            LockLoadStatus::Invalid,
            String::from_str("Shared Skills lock is invalid JSON"),
        ),
        LockRead::NotObject => unusable_lock(
            LockLoadStatus::Invalid,
            String::from_str("Shared Skills lock is not a JSON object"),
        ),
        LockRead::Object(doc) => {
            let n = doc.keys.len();
            let mut i: usize = 0;
            while i < n
                invariant
                    read == LockRead::Object(doc),
                    n == doc.keys@.len(),
                    i <= n,
                    forall|j: int| 0 <= j < i ==> is_lock_field(#[trigger] doc.keys@[j]@),
                decreases n - i,
            {
                if !is_lock_field_text(&doc.keys[i]) {
                    assert(!is_lock_field(doc.keys@[i as int]@));
                    return unusable_lock(
                        LockLoadStatus::Invalid,
                        String::from_str("Shared Skills lock has unsupported top-level fields"),
                    );
                }
                i = i + 1;
            }
            let version = match doc.version {
                Some(v) => v,
                None => {
                    return unusable_lock(
                        LockLoadStatus::Invalid,
                        String::from_str("Shared Skills lock has no numeric version"),
                    );
                },
            };
            if version != 3 {
                let mut warning = String::from_str("Shared Skills lock version ");
                warning.append(decimal_text(version).as_str());
                warning.append(" is unsupported; only v3 is read");
                return unusable_lock(LockLoadStatus::Unsupported, warning);
            }
            let list = match &doc.skills {
                Some(list) => list,
                None => {
                    return unusable_lock(
                        LockLoadStatus::Invalid,
                        String::from_str("Shared Skills lock has no skills object"),
                    );
                },
            };
            let (skills, ignored) = read_entries(list);
            let warning = if ignored > 0 {
                let mut w = String::from_str("Ignored ");
                w.append(decimal_text(ignored).as_str());
                w.append(
                    " shared Skill lock entries with unsupported or malformed fields; their content can still migrate",
                );
                Some(w)
            } else {
                None
            };
            LoadedLock {
                lock: Some(
                    SkillLockFileV3 {
                        version: 3,
                        skills,
                        dismissed: doc.dismissed,
                        last_selected_agents: doc.last_selected_agents,
                    },
                ),
                status: LockLoadStatus::Available,
                warning,
            }
        },
    }
}

/// The lock status of the Skill `key` given the loaded lock: the load
/// status when the lock is not available; otherwise `Available` when the lock
/// has a safe entry for `key`, and `ContentOnly` when it does not.
pub fn lock_status_for(key: &str, lock: &Option<SkillLockFileV3>, status: LockLoadStatus) -> (r:
    SkillLockStatus)
    requires
        lock matches Some(l) ==> l.skills.wf(),
    ensures
        r == match status {
            LockLoadStatus::Missing => SkillLockStatus::Missing,
            LockLoadStatus::Invalid => SkillLockStatus::Invalid,
            LockLoadStatus::Unsupported => SkillLockStatus::Unsupported,
            LockLoadStatus::Available => if (lock matches Some(l) && l.skills@.contains_key(key@)
                && is_safe_lock_entry(l.skills@[key@])) {
                SkillLockStatus::Available
            } else {
                SkillLockStatus::ContentOnly
            },
        },
{
    match status {
        LockLoadStatus::Missing => SkillLockStatus::Missing,
        LockLoadStatus::Invalid => SkillLockStatus::Invalid,
        LockLoadStatus::Unsupported => SkillLockStatus::Unsupported,
        LockLoadStatus::Available => {
            match lock {
                Some(l) => {
                    let k = String::from_str(key);
                    match l.skills.get(&k) {
                        Some(entry) => {
                            if sanitize_lock_entry(entry).is_some() {
                                SkillLockStatus::Available
                            } else {
                                SkillLockStatus::ContentOnly
                            }
                        },
                        None => SkillLockStatus::ContentOnly,
                    }
                },
                None => SkillLockStatus::ContentOnly,
            }
        },
    }
}

/// A lock file as the restore planner uses it.
#[derive(Debug, Clone, PartialEq)]
pub enum SupportedLock {
    Available(SkillLockFileV3),
    Missing,
    Unusable,
}

/// The loaded lock as the planner uses it: available only with the status
/// `Available`, missing only with the status `Missing`, unusable otherwise.
pub fn read_supported_lock(loaded: LoadedLock) -> (r: SupportedLock)
    ensures
        match (loaded.lock, loaded.status) {
            (Some(l), LockLoadStatus::Available) => r == SupportedLock::Available(l),
            (_, LockLoadStatus::Missing) => r == SupportedLock::Missing,
            _ => r == SupportedLock::Unusable,
        },
{
    match (loaded.lock, loaded.status) {
        (Some(l), LockLoadStatus::Available) => SupportedLock::Available(l),
        (_, LockLoadStatus::Missing) => SupportedLock::Missing,
        _ => SupportedLock::Unusable,
    }
}

/// A lock object's top-level members may only be `version`, `skills`,
/// `dismissed` and `lastSelectedAgents`.
pub proof fn law_lock_top_level_fields(k: Seq<char>)
    ensures
        is_lock_field(k) <==> (k == "version"@ || k == "skills"@ || k == "dismissed"@ || k
            == "lastSelectedAgents"@),
{
}

/// A lock entry's members may only be `source`, `sourceType`, `sourceUrl`,
/// `ref`, `skillPath`, `skillFolderHash`, `installedAt`, `updatedAt` and
/// `pluginName`; of those, `ref`, `skillPath` and `pluginName` are optional
/// (absent or null) and the others must be strings.
pub proof fn law_lock_entry_members(fields: Seq<(String, JsonValue)>)
    ensures
        forall|k: Seq<char>|
            #[trigger] is_entry_key(k) <==> (k == "source"@ || k == "sourceType"@ || k
                == "sourceUrl"@ || k == "ref"@ || k == "skillPath"@ || k == "skillFolderHash"@ || k
                == "installedAt"@ || k == "updatedAt"@ || k == "pluginName"@),
        entry_fields_ok(fields) ==> {
            &&& field(fields, "source"@) matches Some(JsonValue::Text(_))
            &&& field(fields, "sourceType"@) matches Some(JsonValue::Text(_))
            &&& field(fields, "sourceUrl"@) matches Some(JsonValue::Text(_))
            &&& field(fields, "skillFolderHash"@) matches Some(JsonValue::Text(_))
            &&& field(fields, "installedAt"@) matches Some(JsonValue::Text(_))
            &&& field(fields, "updatedAt"@) matches Some(JsonValue::Text(_))
        },
        ({
            &&& forall|i: int|
                0 <= i < fields.len() ==> {
                    let k = #[trigger] fields[i].0@;
                    k == "source"@ || k == "sourceType"@ || k == "sourceUrl"@ || k == "ref"@ || k
                        == "skillPath"@ || k == "skillFolderHash"@ || k == "installedAt"@ || k
                        == "updatedAt"@ || k == "pluginName"@
                }
            &&& forall|i: int, j: int|
                0 <= i < j < fields.len() ==> #[trigger] fields[i].0@ != #[trigger] fields[j].0@
            &&& field(fields, "source"@) matches Some(JsonValue::Text(_))
            &&& field(fields, "sourceType"@) matches Some(JsonValue::Text(_))
            &&& field(fields, "sourceUrl"@) matches Some(JsonValue::Text(_))
            &&& field(fields, "skillFolderHash"@) matches Some(JsonValue::Text(_))
            &&& field(fields, "installedAt"@) matches Some(JsonValue::Text(_))
            &&& field(fields, "updatedAt"@) matches Some(JsonValue::Text(_))
            &&& match field(fields, "ref"@) {
                None | Some(JsonValue::Null) | Some(JsonValue::Text(_)) => true,
                _ => false,
            }
            &&& match field(fields, "skillPath"@) {
                None | Some(JsonValue::Null) | Some(JsonValue::Text(_)) => true,
                _ => false,
            }
            &&& match field(fields, "pluginName"@) {
                None | Some(JsonValue::Null) | Some(JsonValue::Text(_)) => true,
                _ => false,
            }
        }) ==> entry_fields_ok(fields),
{
}

/// Only a version 3 document is read: a loaded lock is available only when
/// every top-level member is a known one, `version` is 3 and `skills` is an
/// object; a document of another version with known members is reported as
/// unsupported.
pub proof fn law_only_version_3_is_read(r: LoadedLock, doc: LockDocument)
    requires
        loaded_from_document(r, doc),
    ensures
        r.status == LockLoadStatus::Available ==> {
            &&& doc.version == Some(3u64)
            &&& doc.skills is Some
            &&& forall|i: int|
                0 <= i < doc.keys@.len() ==> {
                    let k = #[trigger] doc.keys@[i]@;
                    k == "version"@ || k == "skills"@ || k == "dismissed"@ || k
                        == "lastSelectedAgents"@
                }
        },
        (forall|i: int|
            0 <= i < doc.keys@.len() ==> {
                let k = #[trigger] doc.keys@[i]@;
                k == "version"@ || k == "skills"@ || k == "dismissed"@ || k == "lastSelectedAgents"@
            }) ==> match doc.version {
            Some(v) => v != 3 ==> r.status == LockLoadStatus::Unsupported && r.lock is None,
            None => r.status == LockLoadStatus::Invalid && r.lock is None,
        },
{
    if r.status == LockLoadStatus::Available {
        assert forall|i: int| 0 <= i < doc.keys@.len() implies {
            let k = #[trigger] doc.keys@[i]@;
            k == "version"@ || k == "skills"@ || k == "dismissed"@ || k == "lastSelectedAgents"@
        } by {
            assert(is_lock_field(doc.keys@[i]@));
        }
    }
    if forall|i: int|
        0 <= i < doc.keys@.len() ==> {
            let k = #[trigger] doc.keys@[i]@;
            k == "version"@ || k == "skills"@ || k == "dismissed"@ || k == "lastSelectedAgents"@
        } {
        assert(!exists|i: int| 0 <= i < doc.keys@.len() && !is_lock_field(#[trigger] doc.keys@[i]@));
    }
}

} // verus!
