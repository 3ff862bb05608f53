//! JSON documents as the library reads them: the value model, parsing through
//! `serde_json`, field lookup, and the lines of a line-delimited document.
use vstd::prelude::*;
use crate::error::{ErrorCode, RehomeError};

verus! {

/// A JSON value.
#[derive(Debug, PartialEq, Eq)]
pub enum JsonValue {
    Null,
    Bool(bool),
    /// A number, by its JSON text.
    Number(String),
    Text(String),
    Array(Vec<JsonValue>),
    /// An object's members, in the order of the parsed map (sorted by key).
    Object(Vec<(String, JsonValue)>),
}

impl Clone for JsonValue {
    fn clone(&self) -> (r: Self)
        decreases self,
    {
        match self {
            JsonValue::Null => JsonValue::Null,
            JsonValue::Bool(b) => JsonValue::Bool(*b),
            JsonValue::Number(t) => JsonValue::Number(t.clone()),
            JsonValue::Text(t) => JsonValue::Text(t.clone()),
            JsonValue::Array(items) => {
                let mut out: Vec<JsonValue> = Vec::new();
                let mut i: usize = 0;
                proof {
                    assert(decreases_to!(self => items));
                    assert forall|j: int| 0 <= j < items@.len() implies decreases_to!(
                        self => #[trigger] items@[j]
                    ) by {
                        assert(decreases_to!(items => items@));
                        assert(decreases_to!(items@ => items@[j]));
                    }
                }
                while i < items.len()
                    invariant
                        i <= items@.len(),
                        forall|j: int| 0 <= j < items@.len() ==> decreases_to!(
                            self => #[trigger] items@[j]
                        ),
                        out@.len() == i,
                    decreases items@.len() - i,
                {
                    let item = items[i].clone();
                    out.push(item);
                    i = i + 1;
                }
                JsonValue::Array(out)
            },
            JsonValue::Object(fields) => {
                let mut out: Vec<(String, JsonValue)> = Vec::new();
                let mut i: usize = 0;
                proof {
                    assert(decreases_to!(self => fields));
                    assert forall|j: int| 0 <= j < fields@.len() implies decreases_to!(
                        self => #[trigger] fields@[j].1
                    ) by {
                        assert(decreases_to!(fields => fields@));
                        assert(decreases_to!(fields@ => fields@[j]));
                        assert(decreases_to!(fields@[j] => fields@[j].1));
                    }
                }
                while i < fields.len()
                    invariant
                        i <= fields@.len(),
                        forall|j: int| 0 <= j < fields@.len() ==> decreases_to!(
                            self => #[trigger] fields@[j].1
                        ),
                        out@.len() == i,
                    decreases fields@.len() - i,
                {
                    let value = fields[i].1.clone();
                    out.push((fields[i].0.clone(), value));
                    i = i + 1;
                }
                JsonValue::Object(out)
            },
        }
    }
}

#[verifier::external_type_specification]
#[verifier::external_body]
pub struct ExSerdeJsonValue(serde_json::Value);

/// What `serde_json` parses `text` to as one JSON document: the value, or the
/// text of the error it reports.
pub uninterp spec fn json_parse(text: Seq<char>) -> Result<JsonValue, Seq<char>>;

/// What `serde_json` parses `bytes` to as one JSON document, when they hold
/// one.
pub uninterp spec fn json_parse_bytes(bytes: Seq<u8>) -> Option<JsonValue>;

/// Turns a parsed `serde_json` value into a `JsonValue`, variant for variant:
/// a number keeps its JSON text, an object its members in the map's order.
#[verifier::external_body]
fn from_serde(value: serde_json::Value) -> JsonValue {
    match value {
        serde_json::Value::Null => JsonValue::Null,
        serde_json::Value::Bool(b) => JsonValue::Bool(b),
        serde_json::Value::Number(n) => JsonValue::Number(n.to_string()),
        serde_json::Value::String(s) => JsonValue::Text(s),
        serde_json::Value::Array(items) => JsonValue::Array(items.into_iter().map(from_serde).collect()),
        serde_json::Value::Object(fields) => JsonValue::Object(
            fields.into_iter().map(|(k, v)| (k, from_serde(v))).collect(),
        ),
    }
}

/// `serde_json::from_str::<serde_json::Value>`: the contract claims only
/// that the result is the one `json_parse` names for `text`, the value on
/// success and the error's text on failure.
#[verifier::external_body]
pub(crate) fn parse_json(text: &str) -> (r: Result<JsonValue, String>)
    ensures
        match r {
            Ok(v) => json_parse(text@) == Ok::<JsonValue, Seq<char>>(v),
            Err(m) => json_parse(text@) == Err::<JsonValue, Seq<char>>(m@),
        },
{
    match serde_json::from_str::<serde_json::Value>(text) {
        Ok(value) => Ok(from_serde(value)),
        Err(error) => Err(error.to_string()),
    }
}

/// `serde_json::from_slice::<serde_json::Value>`: the contract claims only
/// that the result is the one `json_parse_bytes` names for `bytes` (`None`
/// when parsing fails).
#[verifier::external_body]
pub(crate) fn parse_json_bytes(bytes: &[u8]) -> (r: Option<JsonValue>)
    ensures
        r == json_parse_bytes(bytes@),
{
    match serde_json::from_slice::<serde_json::Value>(bytes) {
        Ok(value) => Some(from_serde(value)),
        Err(_) => None,
    }
}

/// The value of the last member of `fields` named `key` (a parsed object
/// names each key once).
pub open spec fn field(fields: Seq<(String, JsonValue)>, key: Seq<char>) -> Option<JsonValue>
    decreases fields.len(),
{
    if fields.len() == 0 {
        None
    } else if fields.last().0@ == key {
        Some(fields.last().1)
    } else {
        field(fields.drop_last(), key)
    }
}

/// The position of the member that `field` reads, if any.
pub fn find_field(fields: &Vec<(String, JsonValue)>, key: &str) -> (r: Option<usize>)
    ensures
        match r {
            Some(i) => i < fields@.len() && fields@[i as int].0@ == key@ && field(fields@, key@)
                == Some(fields@[i as int].1),
            None => field(fields@, key@) is None,
        },
{
    let key_text = String::from_str(key);
    let mut j = fields.len();
    assert(fields@.take(fields@.len() as int) =~= fields@);
    while j > 0
        invariant
            j <= fields@.len(),
            key_text@ == key@,
            field(fields@, key@) == field(fields@.take(j as int), key@),
        decreases j,
    {
        let ghost t = fields@.take(j as int);
        assert(t.drop_last() =~= fields@.take(j - 1));
        if fields[j - 1].0 == key_text {
            return Some(j - 1);
        }
        j = j - 1;
    }
    None
}

/// `s` is a non-empty run of decimal digits.
pub open spec fn is_digits(s: Seq<char>) -> bool {
    s.len() > 0 && forall|i: int| 0 <= i < s.len() ==> '0' <= #[trigger] s[i] && s[i] <= '9'
}

/// The number the decimal digits `s` write.
pub open spec fn digits_value(s: Seq<char>) -> nat
    decreases s.len(),
{
    if s.len() == 0 {
        0
    } else {
        digits_value(s.drop_last()) * 10 + ((s.last() as int) - ('0' as int)) as nat
    }
}

/// The value as an unsigned 64-bit integer: a number written with decimal
/// digits alone that fits (the JSON text of every non-negative integer up to
/// `u64::MAX`, and of no other number).
pub open spec fn json_as_u64(v: JsonValue) -> Option<u64> {
    match v {
        JsonValue::Number(t) => if is_digits(t@) && digits_value(t@) <= u64::MAX {
            Some(digits_value(t@) as u64)
        } else {
            None
        },
        _ => None,
    }
}

proof fn lemma_digits_value_grows(s: Seq<char>, k: int)
    requires
        0 <= k <= s.len(),
        forall|i: int| 0 <= i < s.len() ==> '0' <= #[trigger] s[i] && s[i] <= '9',
    ensures
        digits_value(s.take(k)) <= digits_value(s),
    decreases s.len() - k,
{
    if k < s.len() {
        lemma_digits_value_grows(s, k + 1);
        assert(s.take(k + 1).drop_last() =~= s.take(k));
        assert(s.take(k + 1).last() == s[k]);
    } else {
        assert(s.take(k) =~= s);
    }
}

/// The value as an unsigned 64-bit integer (see `json_as_u64`).
pub fn json_u64(v: &JsonValue) -> (r: Option<u64>)
    ensures
        r == json_as_u64(*v),
{
    match v {
        JsonValue::Number(t) => {
            let chars = crate::text::chars_of(t.as_str());
            let n = chars.len();
            if n == 0 {
                return None;
            }
            let mut value: u64 = 0;
            let mut i: usize = 0;
            while i < n
                invariant
                    n == chars@.len(),
                    chars@ == t@,
                    json_as_u64(*v) == if is_digits(t@) && digits_value(t@) <= u64::MAX {
                        Some(digits_value(t@) as u64)
                    } else {
                        None::<u64>
                    },
                    i <= n,
                    forall|k: int| 0 <= k < i ==> '0' <= #[trigger] chars@[k] && chars@[k] <= '9',
                    value == digits_value(chars@.take(i as int)),
                decreases n - i,
            {
                let c = chars[i];
                if c < '0' || c > '9' {
                    assert(!('0' <= t@[i as int] && t@[i as int] <= '9'));
                    assert(!is_digits(t@));
                    return None;
                }
                assert(chars@.take(i + 1).drop_last() =~= chars@.take(i as int));
                let d = (c as u32 - '0' as u32) as u64;
                assert(d == (c as int) - ('0' as int));
                let x: u128 = value as u128 * 10 + d as u128;
                assert(chars@.take(i + 1).last() == c);
                assert(digits_value(chars@.take(i + 1)) == x);
                if x > u64::MAX as u128 {
                    proof {
                        if is_digits(t@) {
                            lemma_digits_value_grows(chars@, i + 1);
                        }
                    }
                    return None;
                }
                value = x as u64;
                i = i + 1;
            }
            assert(chars@.take(n as int) =~= chars@);
            Some(value)
        },
        _ => None,
    }
}

/// `s` without one final carriage return.
pub open spec fn strip_cr(s: Seq<char>) -> Seq<char> {
    if s.len() > 0 && s.last() == '\r' {
        s.drop_last()
    } else {
        s
    }
}

/// Reading `s` line by line: the non-empty lines ended so far (each without
/// its line feed and a carriage return before it), and the text after the
/// last line feed.
pub open spec fn line_scan(s: Seq<char>) -> (Seq<Seq<char>>, Seq<char>)
    decreases s.len(),
{
    if s.len() == 0 {
        (Seq::empty(), Seq::empty())
    } else {
        let (done, cur) = line_scan(s.drop_last());
        if s.last() == '\n' {
            let l = strip_cr(cur);
            (if l.len() > 0 {
                done.push(l)
            } else {
                done
            }, Seq::empty())
        } else {
            (done, cur.push(s.last()))
        }
    }
}

/// The non-empty lines of `s`, in order, split as `str::lines` splits: at
/// each line feed, with a carriage return just before it dropped; the text
/// after the last line feed is the last line.
pub open spec fn nonempty_lines(s: Seq<char>) -> Seq<Seq<char>> {
    let (done, cur) = line_scan(s);
    if cur.len() > 0 {
        done.push(cur)
    } else {
        done
    }
}

/// Where each non-empty line of `text` lies: its start and end positions.
pub fn line_ranges(text: &str) -> (r: Vec<(usize, usize)>)
    ensures
        r@.len() == nonempty_lines(text@).len(),
        forall|k: int|
            #![trigger r@[k]]
            0 <= k < r@.len() ==> r@[k].0 <= r@[k].1 <= text@.len() && text@.subrange(
                r@[k].0 as int,
                r@[k].1 as int,
            ) == nonempty_lines(text@)[k],
{
    let chars = crate::text::chars_of(text);
    let n = chars.len();
    let mut ranges: Vec<(usize, usize)> = Vec::new();
    let mut start: usize = 0;
    let mut i: usize = 0;
    while i < n
        invariant
            n == chars@.len(),
            chars@ == text@,
            start <= i <= n,
            line_scan(chars@.take(i as int)).1 == chars@.subrange(start as int, i as int),
            ranges@.len() == line_scan(chars@.take(i as int)).0.len(),
            forall|k: int|
                #![trigger ranges@[k]]
                0 <= k < ranges@.len() ==> ranges@[k].0 <= ranges@[k].1 <= start && chars@.subrange(
                    ranges@[k].0 as int,
                    ranges@[k].1 as int,
                ) == line_scan(chars@.take(i as int)).0[k],
        decreases n - i,
    {
        let ghost prev = line_scan(chars@.take(i as int));
        let ghost old_ranges = ranges@;
        let ghost old_start = start;
        assert(chars@.take(i + 1).drop_last() =~= chars@.take(i as int));
        assert(chars@.take(i + 1).last() == chars@[i as int]);
        let ghost next = line_scan(chars@.take(i + 1));
        if chars[i] == '\n' {
            let end = if i > start && chars[i - 1] == '\r' {
                i - 1
            } else {
                i
            };
            assert(strip_cr(prev.1) =~= chars@.subrange(start as int, end as int));
            if end > start {
                ranges.push((start, end));
            }
            start = i + 1;
            assert forall|k: int| 0 <= k < ranges@.len() implies #[trigger] ranges@[k].0 <= ranges@[k].1
                <= start && chars@.subrange(ranges@[k].0 as int, ranges@[k].1 as int)
                == next.0[k] by {
                if k < old_ranges.len() {
                    assert(ranges@[k] == old_ranges[k]);
                    assert(next.0[k] == prev.0[k]);
                }
            }
            assert(next.1 =~= chars@.subrange(start as int, i + 1));
        } else {
            assert(prev.1.push(chars@[i as int]) =~= chars@.subrange(start as int, i + 1));
            assert(next.0 == prev.0);
            assert forall|k: int| 0 <= k < ranges@.len() implies #[trigger] ranges@[k].0 <= ranges@[k].1
                <= start && chars@.subrange(ranges@[k].0 as int, ranges@[k].1 as int)
                == next.0[k] by {
                assert(ranges@[k] == old_ranges[k]);
                assert(next.0[k] == prev.0[k]);
            }
        }
        i = i + 1;
        assert(line_scan(chars@.take(i as int)) == next);
    }
    assert(chars@.take(n as int) =~= chars@);
    assert(line_scan(chars@.take(n as int)) == line_scan(text@));
    let ghost done = line_scan(text@).0;
    let ghost before = ranges@;
    if n > start {
        ranges.push((start, n));
    }
    assert forall|k: int| 0 <= k < ranges@.len() implies #[trigger] ranges@[k].0 <= ranges@[k].1 <= text@.len()
        && text@.subrange(ranges@[k].0 as int, ranges@[k].1 as int) == nonempty_lines(text@)[k] by {
        if k < before.len() {
            assert(ranges@[k] == before[k]);
            assert(nonempty_lines(text@)[k] == done[k]);
        } else {
            assert(nonempty_lines(text@)[k] == line_scan(text@).1);
        }
    }
    ranges
}

} // verus!
