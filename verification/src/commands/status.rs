//! What the daemon and its indexes are doing.
use crate::commands::format::{format_with_commas, grouped, pad_left, pad_right, padded, padded_after};
use crate::engine::memguard::opt_str;
use crate::json::{
    as_items, as_text, compact_json, compact_text, copy_json, empty_members, get_member, items_of,
    json_array, json_null, json_object, json_text, json_view, member, no_members, number_at,
    parse_or_empty, parsed_or_empty, read_number, read_text, set_member, text_at, text_of, trees,
    JsonTree,
};
use crate::paths::{push_text_key, text_key};
use crate::sorting::{key_views, keys_can_be_sorted, lex_le, lists, sort_slots, sorted, sorts};
use crate::text::{chars_of, decimal, opt_text, texts};
use vstd::prelude::*;
use vstd::string::*;

verus! {

/// An index and the daemon's answer about it, where there is one.
pub struct IndexStatus {
    pub name: String,
    pub body: Option<String>,
}

/// What an answer holds; the empty object where there is no proper answer.
pub open spec fn answer_tree(body: Option<Seq<char>>) -> JsonTree {
    match body {
        Some(b) => parsed_or_empty(b),
        None => JsonTree::Object(empty_members()),
    }
}

fn answer_value(body: Option<&str>) -> (v: serde_json::Value)
    ensures
        json_view(v) == answer_tree(opt_str(body)),
{
    match body {
        Some(b) => parse_or_empty(b),
        None => json_object(no_members()),
    }
}

/// What the daemon answered about the index.
pub open spec fn status_of(s: IndexStatus) -> JsonTree {
    answer_tree(opt_text(s.body))
}

/// What the daemon answered about the index.
pub(crate) fn status_value(s: &IndexStatus) -> (v: serde_json::Value)
    ensures
        json_view(v) == status_of(*s),
{
    match &s.body {
        Some(b) => answer_value(Some(b.as_str())),
        None => answer_value(None),
    }
}

/// The texts among the items of an array, in order.
pub open spec fn texts_among(items: Seq<JsonTree>) -> Seq<Seq<char>>
    decreases items.len(),
{
    if items.len() == 0 {
        Seq::empty()
    } else {
        match text_of(items.last()) {
            Some(t) => texts_among(items.drop_last()).push(t),
            None => texts_among(items.drop_last()),
        }
    }
}

/// The names in a list of indexes.
pub open spec fn names_in(v: JsonTree) -> Seq<Seq<char>> {
    match member(v, "indexes"@) {
        Some(m) => match items_of(m) {
            Some(items) => texts_among(items),
            None => Seq::empty(),
        },
        None => Seq::empty(),
    }
}

/// The names of the daemon's indexes, from its answer; none where there is no
/// proper answer.
pub fn fetch_index_names(answer: Option<&str>) -> (names: Vec<String>)
    ensures
        texts(names@) == names_in(answer_tree(opt_str(answer))),
{
    let mut names: Vec<String> = Vec::new();
    assert(texts(names@) =~= Seq::empty());
    let v = answer_value(answer);
    let list = match get_member(&v, "indexes") {
        Some(m) => m,
        None => {
            return names;
        },
    };
    let items = match as_items(list) {
        Some(items) => items,
        None => {
            return names;
        },
    };
    let ghost all = trees(items@);
    assert(all.take(0) =~= Seq::empty());
    for i in 0..items.len()
        invariant
            all == trees(items@),
            texts(names@) == texts_among(all.take(i as int)),
    {
        assert(all.take(i + 1).drop_last() =~= all.take(i as int));
        assert(all.take(i + 1).last() == json_view(items@[i as int]));
        let ghost before = texts(names@);
        match as_text(&items[i]) {
            Some(t) => {
                names.push(t.to_owned());
                assert(texts(names@) =~= before.push(t@));
            },
            None => {},
        }
    }
    assert(all.take(items.len() as int) =~= all);
    names
}

/// The keys by which indexes are ordered.
pub open spec fn name_keys(statuses: Seq<IndexStatus>) -> Seq<Seq<u64>> {
    statuses.map_values(|s: IndexStatus| text_key(s.name@))
}

/// The indexes by name; those of the same name in the order of their answers.
pub open spec fn by_name(statuses: Seq<IndexStatus>) -> Seq<IndexStatus> {
    let order = sorted(name_keys(statuses));
    Seq::new(order.len(), |k: int| statuses[order[k] as int])
}

/// The slots of the indexes by name.
pub fn name_order(statuses: &Vec<IndexStatus>) -> (order: Vec<usize>)
    ensures
        order@ == sorted(name_keys(statuses@)),
        sorts(name_keys(statuses@), order@),
        order.len() == statuses.len(),
        forall|k: int| 0 <= k < order.len() ==> #[trigger] order@[k] < statuses.len(),
        by_name(statuses@).len() == order.len(),
        forall|k: int|
            0 <= k < order.len() ==> #[trigger] by_name(statuses@)[k]
                == statuses@[order@[k] as int],
{
    let mut keys: Vec<Vec<u64>> = Vec::new();
    for i in 0..statuses.len()
        invariant
            key_views(keys@) =~= name_keys(statuses@).take(i as int),
    {
        let chars = chars_of(statuses[i].name.as_str());
        let mut key: Vec<u64> = Vec::new();
        push_text_key(&mut key, &chars, 0, chars.len());
        assert(chars@.subrange(0, chars@.len() as int) =~= chars@);
        assert(key@ =~= text_key(statuses@[i as int].name@));
        let ghost before = key_views(keys@);
        keys.push(key);
        assert(key_views(keys@) =~= before.push(key@));
    }
    assert(key_views(keys@) =~= name_keys(statuses@));
    sort_slots(&keys)
}

// ---------------------------------------------------------------------------
// As JSON
// ---------------------------------------------------------------------------

/// One index in the JSON report.
pub open spec fn index_tree(s: IndexStatus) -> JsonTree {
    JsonTree::Object(
        empty_members().insert("id"@, JsonTree::Text(s.name@)).insert("status"@, status_of(s)),
    )
}

/// The JSON report on a running daemon.
pub open spec fn status_tree(base: Seq<char>, health: Seq<char>, indexes: Seq<IndexStatus>) -> JsonTree {
    JsonTree::Object(
        empty_members().insert("daemon"@, JsonTree::Text("running"@)).insert(
            "url"@,
            JsonTree::Text(base),
        ).insert(
            "version"@,
            match member(parsed_or_empty(health), "version"@) {
                Some(v) => v,
                None => JsonTree::Null,
            },
        ).insert(
            "indexes"@,
            JsonTree::Array(indexes.map_values(|s: IndexStatus| index_tree(s))),
        ),
    )
}

fn index_value(s: &IndexStatus) -> (v: serde_json::Value)
    ensures
        json_view(v) == index_tree(*s),
{
    let mut m = no_members();
    set_member(&mut m, "id", json_text(s.name.clone()));
    set_member(&mut m, "status", status_value(s));
    json_object(m)
}

/// The JSON report on a running daemon, its indexes by name.
pub fn status_json(base: &str, health: &str, statuses: &Vec<IndexStatus>) -> (s: String)
    ensures
        s@ == compact_text(status_tree(base@, health@, by_name(statuses@))),
{
    let order = name_order(statuses);
    let ghost wanted = by_name(statuses@).map_values(|s: IndexStatus| index_tree(s));
    let mut items: Vec<serde_json::Value> = Vec::new();
    for k in 0..order.len()
        invariant
            order.len() == statuses.len(),
            by_name(statuses@).len() == order.len(),
            wanted == by_name(statuses@).map_values(|s: IndexStatus| index_tree(s)),
            forall|j: int| 0 <= j < order.len() ==> #[trigger] order@[j] < statuses.len(),
            forall|j: int|
                0 <= j < order.len() ==> #[trigger] by_name(statuses@)[j]
                    == statuses@[order@[j] as int],
            trees(items@) =~= wanted.take(k as int),
    {
        let at: usize = order[k];
        let v = index_value(&statuses[at]);
        let ghost before = trees(items@);
        assert(by_name(statuses@)[k as int] == statuses@[at as int]);
        items.push(v);
        assert(trees(items@) =~= before.push(json_view(v)));
        assert(wanted.take(k + 1) =~= wanted.take(k as int).push(wanted[k as int]));
    }
    assert(wanted.take(order.len() as int) =~= wanted);
    let parsed = parse_or_empty(health);
    let version = match get_member(&parsed, "version") {
        Some(v) => copy_json(v),
        None => json_null(),
    };
    let mut m = no_members();
    set_member(&mut m, "daemon", json_text("running".to_owned()));
    set_member(&mut m, "url", json_text(base.to_owned()));
    set_member(&mut m, "version", version);
    set_member(&mut m, "indexes", json_array(items));
    compact_json(&json_object(m))
}

// ---------------------------------------------------------------------------
// As text
// ---------------------------------------------------------------------------

/// One row of the table of indexes.
pub struct StatusRow {
    /// The name, padded.
    pub name: String,
    /// The number of chunks, padded.
    pub chunks: String,
    /// The root, where it is known.
    pub root: Option<String>,
}

/// The text under `key`, or nothing at all.
pub open spec fn text_or_blank(v: JsonTree, key: Seq<char>) -> Seq<char> {
    match text_at(v, key) {
        Some(t) => t,
        None => Seq::empty(),
    }
}

/// The number of chunks as it stands in a table.
pub open spec fn chunk_cell(v: JsonTree) -> Seq<char> {
    padded(grouped(decimal(number_at(v, "chunk_count"@) as nat)), 12)
}

/// The number of chunks as it stands in a table.
pub(crate) fn chunks_shown(v: &serde_json::Value) -> (s: String)
    ensures
        s@ == chunk_cell(json_view(*v)),
{
    pad_left(format_with_commas(read_number(v, "chunk_count")).as_str(), 12)
}

/// Whether the row tells of the index.
pub open spec fn shows(row: StatusRow, s: IndexStatus) -> bool {
    let root = text_or_blank(status_of(s), "root_path"@);
    &&& row.name@ == padded_after(s.name@, 16)
    &&& row.chunks@ == chunk_cell(status_of(s))
    &&& opt_text(row.root) == (if root.len() == 0 {
        None
    } else {
        Some(root)
    })
}

/// One row of the table of indexes.
pub fn status_row(s: &IndexStatus) -> (row: StatusRow)
    ensures
        shows(row, *s),
{
    let v = status_value(s);
    let root = match read_text(&v, "root_path") {
        Some(t) => if t.is_empty() {
            None
        } else {
            Some(t.to_owned())
        },
        None => None,
    };
    StatusRow { name: pad_right(s.name.as_str(), 16), chunks: chunks_shown(&v), root }
}

/// The daemon's version as it reports it, or a question mark.
pub open spec fn version_in(health: Seq<char>) -> Seq<char> {
    match text_at(parsed_or_empty(health), "version"@) {
        Some(v) => v,
        None => "?"@,
    }
}

/// The daemon's version as it reports it, or a question mark.
pub fn reported_version(health: &str) -> (version: String)
    ensures
        version@ == version_in(health@),
{
    let v = parse_or_empty(health);
    match read_text(&v, "version") {
        Some(t) => t.to_owned(),
        None => "?".to_owned(),
    }
}

/// What is shown of the daemon.
pub enum StatusReport {
    /// It does not run: one line.
    NotRunning(String),
    /// A JSON text.
    Json(String),
    /// A headline and a table of indexes.
    Table { headline: String, rows: Vec<StatusRow> },
}

/// What is shown of the daemon at `base`. `health` is its answer about itself,
/// where it gave a proper one.
pub fn handle_status(
    json: bool,
    base: &str,
    health: Option<&str>,
    statuses: &Vec<IndexStatus>,
) -> (report: StatusReport)
    ensures
        match (report, health) {
            (StatusReport::NotRunning(s), None) => s@ == (if json {
                "{\"daemon\":\"not_running\"}"@
            } else {
                "Daemon not running  (start with `trusty-search start`)"@
            }),
            (StatusReport::Json(s), Some(h)) => json && s@ == compact_text(
                status_tree(base@, h@, by_name(statuses@)),
            ),
            (StatusReport::Table { headline, rows }, Some(h)) => {
                &&& !json
                &&& headline@ == "Daemon running  "@ + base@ + "  v"@ + version_in(h@)
                &&& rows.len() == statuses.len()
                &&& by_name(statuses@).len() == statuses.len()
                &&& forall|k: int|
                    0 <= k < rows.len() ==> shows(#[trigger] rows@[k], by_name(statuses@)[k])
            },
            _ => false,
        },
{
    let answer = match health {
        Some(h) => h,
        None => {
            return StatusReport::NotRunning(
                if json {
                    "{\"daemon\":\"not_running\"}".to_owned()
                } else {
                    "Daemon not running  (start with `trusty-search start`)".to_owned()
                },
            );
        },
    };
    if json {
        return StatusReport::Json(status_json(base, answer, statuses));
    }
    let order = name_order(statuses);
    let mut rows: Vec<StatusRow> = Vec::new();
    for k in 0..order.len()
        invariant
            order.len() == statuses.len(),
            rows.len() == k,
            forall|j: int| 0 <= j < order.len() ==> #[trigger] order@[j] < statuses.len(),
            forall|j: int|
                0 <= j < order.len() ==> #[trigger] by_name(statuses@)[j]
                    == statuses@[order@[j] as int],
            forall|j: int| 0 <= j < k ==> shows(#[trigger] rows@[j], by_name(statuses@)[j]),
    {
        let at: usize = order[k];
        rows.push(status_row(&statuses[at]));
        assert(by_name(statuses@)[k as int] == statuses@[at as int]);
    }
    let mut headline = "Daemon running  ".to_owned();
    headline.append(base);
    headline.append("  v");
    headline.append(reported_version(answer).as_str());
    StatusReport::Table { headline, rows }
}

// ---------------------------------------------------------------------------
// Laws
// ---------------------------------------------------------------------------

/// Every index is shown, none of them twice, and their names come in order.
pub proof fn every_index_is_shown_by_name(statuses: Seq<IndexStatus>)
    requires
        statuses.len() <= usize::MAX,
    ensures
        by_name(statuses).len() == statuses.len(),
        forall|i: int| 0 <= i < statuses.len() ==> by_name(statuses).contains(#[trigger] statuses[i]),
        forall|a: int, b: int|
            0 <= a < b < statuses.len() ==> lex_le(
                text_key((#[trigger] by_name(statuses)[a]).name@),
                text_key((#[trigger] by_name(statuses)[b]).name@),
            ),
{
    let keys = name_keys(statuses);
    let order = sorted(keys);
    keys_can_be_sorted(keys);
    assert forall|i: int| 0 <= i < statuses.len() implies by_name(statuses).contains(
        #[trigger] statuses[i],
    ) by {
        assert(lists(order, i));
        let k = choose|k: int| 0 <= k < order.len() && #[trigger] order[k] == i;
        assert(by_name(statuses)[k] == statuses[i]);
    }
    assert forall|a: int, b: int| 0 <= a < b < statuses.len() implies lex_le(
        text_key((#[trigger] by_name(statuses)[a]).name@),
        text_key((#[trigger] by_name(statuses)[b]).name@),
    ) by {
        assert(lex_le(keys[order[a] as int], keys[order[b] as int]));
    }
}

} // verus!
