//! What a search server answers.

use crate::double::Double;
use crate::search;
use crate::text;
use vstd::prelude::*;
use vstd::string::*;

verus! {

/// A server's reply, and how it is shown in messages.
#[derive(Debug)]
pub struct Reply {
    pub value: ReplyValue,
    pub shown: String,
}

/// The value of a reply.
#[derive(Debug)]
pub enum ReplyValue {
    Array(Vec<Reply>),
    Error(Vec<u8>),
    Bulk(Vec<u8>),
    Simple(Vec<u8>),
    Integer(i64),
    Other,
}

/// What bytes read as, with what is no UTF-8 replaced.
pub uninterp spec fn lossy(bytes: Seq<u8>) -> Seq<char>;

/// Whether bytes spell a text, one byte a character.
pub open spec fn spells(bytes: Seq<u8>, t: Seq<char>) -> bool {
    &&& bytes.len() == t.len()
    &&& forall|i: int| 0 <= i < t.len() ==> #[trigger] bytes[i] < 128 && bytes[i] as u32
        == t[i] as u32
}

/// `String::from_utf8_lossy`. What bytes read as depends on them alone; it is
/// named. Of it is said only that bytes below 128 are the characters of the
/// same number.
#[verifier::external_body]
pub(crate) fn lossy_text(bytes: &Vec<u8>) -> (r: String)
    ensures
        r@ == lossy(bytes@),
        (forall|i: int| 0 <= i < bytes@.len() ==> #[trigger] bytes@[i] < 128) ==> spells(
            bytes@,
            r@,
        ),
{
    String::from_utf8_lossy(bytes).into_owned()
}

/// Whether bytes are those of a text of ASCII characters.
pub fn is_spelled(bytes: &Vec<u8>, t: &str) -> (r: bool)
    ensures
        r == spells(bytes@, t@),
{
    let c = text::chars_of(t);
    if bytes.len() != c.len() {
        return false;
    }
    let mut i: usize = 0;
    while i < c.len()
        invariant
            i <= c@.len(),
            c@ == t@,
            bytes@.len() == c@.len(),
            forall|j: int|
                0 <= j < i ==> #[trigger] bytes@[j] < 128 && bytes@[j] as u32 == t@[j] as u32,
        decreases c@.len() - i,
    {
        if bytes[i] >= 128 || bytes[i] as u32 != c[i] as u32 {
            assert(!(bytes@[i as int] < 128 && bytes@[i as int] as u32 == t@[i as int] as u32));
            return false;
        }
        i = i + 1;
    }
    true
}

/// Whether any of the replies to a batch is an error, and the first one.
pub open spec fn first_error(replies: Seq<Reply>, i: int) -> bool {
    &&& 0 <= i < replies.len()
    &&& replies[i].value is Error
    &&& forall|j: int| 0 <= j < i ==> !((#[trigger] replies[j]).value is Error)
}

/// Whether a batch of HSETs was accepted.
pub fn check_load(replies: &Vec<Reply>) -> (r: Result<(), String>)
    ensures
        match r {
            Ok(_) => forall|i: int|
                0 <= i < replies@.len() ==> !((#[trigger] replies@[i]).value is Error),
            Err(e) => exists|i: int| #[trigger]
                first_error(replies@, i) && e@ == "HSET error during load: "@ + lossy(
                    replies@[i].value->Error_0@,
                ),
        },
{
    let mut i: usize = 0;
    while i < replies.len()
        invariant
            i <= replies@.len(),
            forall|j: int| 0 <= j < i ==> !((#[trigger] replies@[j]).value is Error),
        decreases replies@.len() - i,
    {
        if let ReplyValue::Error(e) = &replies[i].value {
            let mut m = String::from_str("HSET error during load: ");
            m.append(lossy_text(e).as_str());
            assert(first_error(replies@, i as int));
            return Err(m);
        }
        i = i + 1;
    }
    Ok(())
}

/// The id of a document's key.
pub open spec fn doc_id(key: Seq<char>) -> Option<int> {
    if key.len() >= 4 && key.take(4) == "doc:"@ {
        text::signed(key.skip(4))
    } else {
        None
    }
}

fn parse_doc_id(key: &str) -> (r: Option<i64>)
    ensures
        match r {
            Some(n) => doc_id(key@) == Some(n as int),
            None => doc_id(key@) is None,
        },
{
    let t = text::chars_of(key);
    if t.len() < 4 {
        return None;
    }
    let lead = text::part(&t, 0, 4);
    assert(lead@ =~= key@.take(4));
    if !text::same(&lead, "doc:") {
        return None;
    }
    let rest = text::part(&t, 4, t.len());
    assert(rest@ =~= key@.skip(4));
    text::parse_signed(&rest)
}

/// The key of a row has that row's id.
pub proof fn keys_lead_back_to_their_rows(row: nat)
    requires
        row <= i64::MAX,
    ensures
        doc_id(search::doc_key_text(row)) == Some(row as int),
{
    reveal_strlit("doc:");
    let key = search::doc_key_text(row);
    assert(key.take(4) =~= "doc:"@);
    assert(key.skip(4) =~= text::decimal(row));
    text::lemma_decimal_reads_back(row);
    let d = text::decimal(row);
    assert(text::is_digit(d[0]));
    assert(text::without_plus(d) == d);
}

/// The text of a string reply.
pub open spec fn string_of(r: Reply) -> Option<Seq<char>> {
    match r.value {
        ReplyValue::Bulk(b) => Some(lossy(b@)),
        ReplyValue::Simple(b) => Some(lossy(b@)),
        _ => None,
    }
}

/// The id that an element of a reply names.
pub open spec fn element_id(r: Reply) -> Option<int> {
    match string_of(r) {
        Some(key) => doc_id(key),
        None => None,
    }
}

/// What is wrong with an element that names no id.
pub open spec fn element_fault(r: Reply) -> Seq<char> {
    match string_of(r) {
        Some(key) => "key "@ + search::debug_text(key) + " is not doc:<integer>"@,
        None => "unexpected key element "@ + r.shown@,
    }
}

/// The first element after the count that names no id.
pub open spec fn first_nameless(items: Seq<Reply>, i: int) -> bool {
    &&& 1 <= i < items.len()
    &&& element_id(items[i]) is None
    &&& forall|j: int| 1 <= j < i ==> element_id(#[trigger] items[j]) is Some
}

fn parse_element(item: &Reply) -> (r: Result<i64, String>)
    ensures
        match r {
            Ok(n) => element_id(*item) == Some(n as int),
            Err(e) => element_id(*item) is None && e@ == element_fault(*item),
        },
{
    let key = match &item.value {
        ReplyValue::Bulk(b) => lossy_text(b),
        ReplyValue::Simple(b) => lossy_text(b),
        _ => {
            let mut e = String::from_str("unexpected key element ");
            e.append(item.shown.as_str());
            return Err(e);
        },
    };
    match parse_doc_id(key.as_str()) {
        Some(n) => Ok(n),
        None => {
            let mut e = String::from_str("key ");
            e.append(search::quoted(key.as_str()).as_str());
            e.append(" is not doc:<integer>");
            Err(e)
        },
    }
}

/// Extract the doc ids from a reply without contents: the count, and after it
/// the keys.
pub fn parse_knn_reply(reply: &Reply) -> (r: Result<Vec<i64>, String>)
    ensures
        match reply.value {
            ReplyValue::Array(items) => match r {
                Ok(ids) => {
                    &&& ids@.len() == if items@.len() > 0 {
                        items@.len() - 1
                    } else {
                        0
                    }
                    &&& forall|i: int|
                        0 <= i < ids@.len() ==> element_id(items@[i + 1]) == Some(
                            #[trigger] ids@[i] as int,
                        )
                },
                Err(e) => exists|i: int| #[trigger]
                    first_nameless(items@, i) && e@ == element_fault(items@[i]),
            },
            ReplyValue::Error(m) => r matches Err(e) && e@ == lossy(m@),
            _ => r matches Err(e) && e@ == "unexpected reply "@ + reply.shown@,
        },
{
    let items = match &reply.value {
        ReplyValue::Array(items) => items,
        ReplyValue::Error(e) => return Err(lossy_text(e)),
        _ => {
            let mut e = String::from_str("unexpected reply ");
            e.append(reply.shown.as_str());
            return Err(e);
        },
    };
    let mut ids: Vec<i64> = Vec::new();
    let mut i: usize = 1;
    while i < items.len()
        invariant
            1 <= i,
            i <= items@.len() || i == 1,
            reply.value == ReplyValue::Array(*items),
            ids@.len() == i - 1,
            forall|j: int|
                0 <= j < ids@.len() ==> element_id(items@[j + 1]) == Some(
                    #[trigger] ids@[j] as int,
                ),
            forall|j: int| 1 <= j < i ==> element_id(#[trigger] items@[j]) is Some,
        decreases items@.len() - i,
    {
        match parse_element(&items[i]) {
            Ok(id) => {
                ids.push(id);
            },
            Err(e) => {
                assert(first_nameless(items@, i as int));
                return Err(e);
            },
        }
        i = i + 1;
    }
    Ok(ids)
}

/// The value of a field as text.
pub open spec fn field_text(r: Reply) -> Seq<char> {
    match r.value {
        ReplyValue::Bulk(b) => lossy(b@),
        ReplyValue::Simple(b) => lossy(b@),
        ReplyValue::Integer(n) => text::integer(n as int),
        _ => r.shown@,
    }
}

/// Whether a reply is this name.
pub open spec fn is_name(r: Reply, name: Seq<char>) -> bool {
    match r.value {
        ReplyValue::Bulk(b) => spells(b@, name),
        ReplyValue::Simple(b) => spells(b@, name),
        _ => false,
    }
}

/// The value of a named field in a list of alternating names and values, from
/// place `i` on.
pub open spec fn field(fields: Seq<Reply>, name: Seq<char>, i: int) -> Option<Seq<char>>
    decreases fields.len() - i,
{
    if i + 1 >= fields.len() {
        None
    } else if is_name(fields[i], name) {
        Some(field_text(fields[i + 1]))
    } else {
        field(fields, name, i + 2)
    }
}

/// Look up a named field in an information reply, an alternating list of names
/// and values, normalizing the value to text. Names are ASCII.
pub fn info_field(fields: &Vec<Reply>, name: &str) -> (r: Option<String>)
    ensures
        match r {
            Some(t) => field(fields@, name@, 0) == Some(t@),
            None => field(fields@, name@, 0) is None,
        },
{
    let mut i: usize = 0;
    while i < fields.len() && fields.len() - i > 1
        invariant
            i <= fields@.len(),
            field(fields@, name@, 0) == field(fields@, name@, i as int),
        decreases fields@.len() - i,
    {
        let matches = match &fields[i].value {
            ReplyValue::Bulk(b) => is_spelled(b, name),
            ReplyValue::Simple(b) => is_spelled(b, name),
            _ => false,
        };
        if matches {
            let value = &fields[i + 1];
            return Some(
                match &value.value {
                    ReplyValue::Bulk(b) => lossy_text(b),
                    ReplyValue::Simple(b) => lossy_text(b),
                    ReplyValue::Integer(n) => {
                        let mut t = String::new();
                        text::push_integer(&mut t, *n);
                        assert(t@ =~= text::integer(*n as int));
                        t
                    },
                    _ => String::from_str(value.shown.as_str()),
                },
            );
        }
        i = i + 2;
    }
    None
}

/// What an information reply says about the index.
#[derive(Clone, Debug)]
pub enum IndexState {
    /// The index is ready, or not.
    Known(bool),
    /// A share of the index is built: this text, to be read as a number.
    Percent(String),
    /// The reply has none of the fields.
    Unknown,
}

/// The fields by which Valkey Search reports its state.
pub open spec fn valkey_fields(fields: Seq<Reply>) -> Option<(Seq<char>, Seq<char>, Seq<char>)> {
    match (
        field(fields, "state"@, 0),
        field(fields, "backfill_in_progress"@, 0),
        field(fields, "mutation_queue_size"@, 0),
    ) {
        (Some(s), Some(b), Some(q)) => Some((s, b, q)),
        _ => None,
    }
}

/// Readiness from an information reply, supporting both server families.
///
/// Valkey Search reports `state`, `backfill_in_progress` and
/// `mutation_queue_size`; RediSearch reports `percent_indexed` and `indexing`.
/// Treating an unknown shape as ready would report a fictitious build time.
pub fn index_state(fields: &Vec<Reply>) -> (r: IndexState)
    ensures
        match valkey_fields(fields@) {
            Some((s, b, q)) => r == IndexState::Known(s == "ready"@ && b == "0"@ && q == "0"@),
            None => match field(fields@, "percent_indexed"@, 0) {
                Some(p) => r matches IndexState::Percent(t) && t@ == p,
                None => r is Unknown,
            },
        },
{
    let state = info_field(fields, "state");
    let backfill = info_field(fields, "backfill_in_progress");
    let queue = info_field(fields, "mutation_queue_size");
    if let Some(state) = state {
        if let Some(backfill) = backfill {
            if let Some(queue) = queue {
                let s = text::chars_of(state.as_str());
                let b = text::chars_of(backfill.as_str());
                let q = text::chars_of(queue.as_str());
                return IndexState::Known(
                    text::same(&s, "ready") && text::same(&b, "0") && text::same(&q, "0"),
                );
            }
        }
    }
    match info_field(fields, "percent_indexed") {
        Some(p) => IndexState::Percent(p),
        None => IndexState::Unknown,
    }
}

/// Whether an index is ready, given what the share of it that is built was
/// read as; none where that text is no number.
pub fn index_ready(fields: &Vec<Reply>, percent: Option<Double>) -> (r: Result<bool, String>)
    ensures
        match valkey_fields(fields@) {
            Some((s, b, q)) => r == Ok::<bool, String>(s == "ready"@ && b == "0"@ && q == "0"@),
            None => match field(fields@, "percent_indexed"@, 0) {
                Some(p) => match percent {
                    Some(x) => r == Ok::<bool, String>(
                        Double::of_nat(1).le_spec(x) && match field(fields@, "indexing"@, 0) {
                            Some(i) => i == "0"@,
                            None => true,
                        },
                    ),
                    None => r matches Err(e) && e@ == "percent_indexed not numeric: "@
                        + search::debug_text(p),
                },
                None => r matches Err(e) && e@
                    == "FT.INFO reply has neither the Valkey Search fields (state/backfill_in_progress/mutation_queue_size) nor the RediSearch fields (percent_indexed/indexing); unsupported server?"@,
            },
        },
{
    match index_state(fields) {
        IndexState::Known(ready) => Ok(ready),
        IndexState::Percent(t) => {
            let done = match percent {
                Some(x) => Double::from_u64(1).le(x),
                None => {
                    let mut e = String::from_str("percent_indexed not numeric: ");
                    e.append(search::quoted(t.as_str()).as_str());
                    return Err(e);
                },
            };
            let idle = match info_field(fields, "indexing") {
                Some(i) => text::same(&text::chars_of(i.as_str()), "0"),
                None => true,
            };
            Ok(done && idle)
        },
        IndexState::Unknown => Err(
            String::from_str(
                "FT.INFO reply has neither the Valkey Search fields (state/backfill_in_progress/mutation_queue_size) nor the RediSearch fields (percent_indexed/indexing); unsupported server?",
            ),
        ),
    }
}

/// The elements of a reply that must be a list; else an error that starts with
/// the given texts.
pub fn array_of<'a>(reply: &'a Reply, refused: &str, unexpected: &str) -> (r: Result<
    &'a Vec<Reply>,
    String,
>)
    ensures
        match reply.value {
            ReplyValue::Array(items) => r == Ok::<&Vec<Reply>, String>(&items),
            ReplyValue::Error(m) => r matches Err(e) && e@ == refused@ + lossy(m@),
            _ => r matches Err(e) && e@ == unexpected@ + reply.shown@,
        },
{
    match &reply.value {
        ReplyValue::Array(items) => Ok(items),
        ReplyValue::Error(m) => {
            let mut e = String::from_str(refused);
            e.append(lossy_text(m).as_str());
            Err(e)
        },
        _ => {
            let mut e = String::from_str(unexpected);
            e.append(reply.shown.as_str());
            Err(e)
        },
    }
}

/// Whether the keyspace holds as many keys as the dataset has train vectors.
pub fn check_dbsize(reply: &Reply, rows: usize) -> (r: Result<(), String>)
    ensures
        match reply.value {
            ReplyValue::Integer(n) => if n == rows {
                r is Ok
            } else {
                r matches Err(e) && e@ == "--reuse-index: DBSIZE "@ + text::integer(n as int)
                    + " does not match dataset train count "@ + text::decimal(rows as nat)
            },
            _ => r matches Err(e) && e@ == "--reuse-index: DBSIZE: unexpected reply "@
                + reply.shown@,
        },
{
    match &reply.value {
        ReplyValue::Integer(n) => {
            if *n >= 0 && *n as u64 == rows as u64 {
                return Ok(());
            }
            let mut e = String::from_str("--reuse-index: DBSIZE ");
            text::push_integer(&mut e, *n);
            e.append(" does not match dataset train count ");
            text::push_decimal(&mut e, rows as u128);
            Err(e)
        },
        _ => {
            let mut e = String::from_str("--reuse-index: DBSIZE: unexpected reply ");
            e.append(reply.shown.as_str());
            Err(e)
        },
    }
}

/// How a scan that deletes keys goes on.
#[derive(Clone, Debug)]
pub enum Scan {
    /// From this cursor.
    From(Vec<u8>),
    /// It is complete.
    Complete,
}

/// How a scan goes on after a reply with its cursor; a cursor of `0` ends it.
pub fn next_scan(reply: &Reply, pattern: &str) -> (r: Result<Scan, String>)
    ensures
        match reply.value {
            ReplyValue::Bulk(b) | ReplyValue::Simple(b) => if b@ == seq![48u8] {
                r matches Ok(Scan::Complete)
            } else {
                r matches Ok(Scan::From(c)) && c@ == b@
            },
            ReplyValue::Error(m) => r matches Err(e) && e@ == "cleanup EVAL "@ + pattern@ + ": "@
                + lossy(m@),
            _ => r matches Err(e) && e@ == "cleanup EVAL "@ + pattern@ + ": unexpected reply "@
                + reply.shown@,
        },
{
    match &reply.value {
        ReplyValue::Bulk(b) => Ok(scan_from(b)),
        ReplyValue::Simple(b) => Ok(scan_from(b)),
        ReplyValue::Error(m) => {
            let mut e = String::from_str("cleanup EVAL ");
            e.append(pattern);
            e.append(": ");
            e.append(lossy_text(m).as_str());
            Err(e)
        },
        _ => {
            let mut e = String::from_str("cleanup EVAL ");
            e.append(pattern);
            e.append(": unexpected reply ");
            e.append(reply.shown.as_str());
            Err(e)
        },
    }
}

fn scan_from(cursor: &Vec<u8>) -> (r: Scan)
    ensures
        if cursor@ == seq![48u8] {
            r is Complete
        } else {
            r matches Scan::From(c) && c@ == cursor@
        },
{
    if cursor.len() == 1 && cursor[0] == 48 {
        assert(cursor@ =~= seq![48u8]);
        Scan::Complete
    } else {
        assert(cursor@ != seq![48u8]);
        let mut c: Vec<u8> = Vec::new();
        let mut i: usize = 0;
        while i < cursor.len()
            invariant
                i <= cursor@.len(),
                c@ == cursor@.take(i as int),
            decreases cursor@.len() - i,
        {
            c.push(cursor[i]);
            i = i + 1;
            assert(c@ =~= cursor@.take(i as int));
        }
        assert(cursor@.take(cursor@.len() as int) =~= cursor@);
        Scan::From(c)
    }
}

/// A field has the value that follows the first place of its name among the
/// names, which stand at every other place.
pub proof fn a_field_follows_its_name(fields: Seq<Reply>, name: Seq<char>, j: int)
    requires
        0 <= j,
        2 * j + 1 < fields.len(),
        is_name(fields[2 * j], name),
        forall|i: int| 0 <= i < j ==> !is_name(#[trigger] fields[2 * i], name),
    ensures
        field(fields, name, 0) == Some(field_text(fields[2 * j + 1])),
{
    lemma_field_from(fields, name, j, 0);
}

proof fn lemma_field_from(fields: Seq<Reply>, name: Seq<char>, j: int, from: int)
    requires
        0 <= from <= j,
        2 * j + 1 < fields.len(),
        is_name(fields[2 * j], name),
        forall|i: int| from <= i < j ==> !is_name(#[trigger] fields[2 * i], name),
    ensures
        field(fields, name, 2 * from) == Some(field_text(fields[2 * j + 1])),
    decreases j - from,
{
    if from < j {
        assert(!is_name(fields[2 * from], name));
        lemma_field_from(fields, name, j, from + 1);
    }
}

/// A field whose name is at no such place is not there.
pub proof fn a_field_without_a_name_is_absent(fields: Seq<Reply>, name: Seq<char>, from: int)
    requires
        from >= 0,
        forall|i: int|
            from <= i && 2 * i + 1 < fields.len() ==> !is_name(#[trigger] fields[2 * i], name),
    ensures
        field(fields, name, 2 * from) is None,
    decreases fields.len() - from,
{
    if 2 * from + 1 < fields.len() {
        assert(!is_name(fields[2 * from], name));
        a_field_without_a_name_is_absent(fields, name, from + 1);
    }
}

/// An element of a reply names an id exactly as its text is a document's key,
/// whether it came as a bulk or as a simple string; nothing else names one.
pub proof fn elements_name_ids_by_their_text(r: Reply)
    ensures
        r.value matches ReplyValue::Bulk(b) ==> element_id(r) == doc_id(lossy(b@)),
        r.value matches ReplyValue::Simple(b) ==> element_id(r) == doc_id(lossy(b@)),
        !(r.value is Bulk) && !(r.value is Simple) ==> element_id(r) is None,
{
}

/// A key that does not start with the prefix is no document's.
pub proof fn other_keys_have_no_id(key: Seq<char>)
    requires
        key.len() < 4 || key[0] != 'd' || key[1] != 'o' || key[2] != 'c' || key[3] != ':',
    ensures
        doc_id(key) is None,
{
    reveal_strlit("doc:");
    if key.len() >= 4 {
        let t = key.take(4);
        assert(t[0] == key[0] && t[1] == key[1] && t[2] == key[2] && t[3] == key[3]);
    }
}

} // verus!
