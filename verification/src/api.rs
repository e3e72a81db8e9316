//! The event listing query of the HTTP API: which filters a request sets, and the SQL
//! text and bound values that select the matching events.

use vstd::prelude::*;
use crate::text::owned;

verus! {

/// The filters and paging of an event listing request.
pub struct EventQuery {
    pub topic: Option<String>,
    pub creator: Option<String>,
    pub sender: Option<String>,
    pub tx_hash: Option<String>,
    pub min_ledger: Option<i64>,
    pub max_ledger: Option<i64>,
    pub limit: Option<u32>,
    pub offset: Option<u32>,
}

/// One piece of a query as it is built: SQL text, or a value bound in its place.
pub enum QueryPart {
    Sql(String),
    BindText(String),
    BindInt(i64),
}

/// The model of a query piece.
pub enum QueryPartModel {
    Sql(Seq<char>),
    BindText(Seq<char>),
    BindInt(int),
}

impl View for QueryPart {
    type V = QueryPartModel;

    open spec fn view(&self) -> QueryPartModel {
        match self {
            QueryPart::Sql(s) => QueryPartModel::Sql(s@),
            QueryPart::BindText(s) => QueryPartModel::BindText(s@),
            QueryPart::BindInt(n) => QueryPartModel::BindInt(*n as int),
        }
    }
}

/// The columns and table every listing selects from.
pub const LIST_EVENTS_SQL: &'static str = "SELECT event_id, contract_id, cursor, ledger, ledger_closed_at, topic, topic_values,
                  event_data, parsed_data, raw_event, tx_hash, successful_call, created_at
           FROM contract_events WHERE 1 = 1";

/// The default page size.
pub const DEFAULT_LIMIT: u32 = 50;

/// The largest page size.
pub const MAX_LIMIT: u32 = 500;

/// The page size of a request: 50 when none is given, held between 1 and 500.
pub open spec fn spec_page_limit(limit: Option<u32>) -> i64 {
    let l = match limit {
        Some(l) => l,
        None => DEFAULT_LIMIT,
    };
    if l < 1 {
        1
    } else if l > MAX_LIMIT {
        MAX_LIMIT as i64
    } else {
        l as i64
    }
}

/// Every listing asks for at least one and at most 500 events, and never starts before
/// the first.
pub proof fn lemma_page_bounds(limit: Option<u32>, offset: Option<u32>)
    ensures
        1 <= spec_page_limit(limit) <= MAX_LIMIT,
        spec_page_offset(offset) >= 0,
{
}

/// The offset of a request: 0 when none is given.
pub open spec fn spec_page_offset(offset: Option<u32>) -> i64 {
    match offset {
        Some(o) => o as i64,
        None => 0,
    }
}

/// A text filter: the SQL condition and the value bound to it, when the value is given.
pub open spec fn text_filter(sql: Seq<char>, v: Option<String>) -> Seq<QueryPartModel> {
    match v {
        Some(x) => seq![QueryPartModel::Sql(sql), QueryPartModel::BindText(x@)],
        None => Seq::empty(),
    }
}

/// A ledger filter: the SQL condition and the ledger bound to it, when it is given.
pub open spec fn int_filter(sql: Seq<char>, v: Option<i64>) -> Seq<QueryPartModel> {
    match v {
        Some(x) => seq![QueryPartModel::Sql(sql), QueryPartModel::BindInt(x as int)],
        None => Seq::empty(),
    }
}

/// The pieces of the listing query of `q`: the base selection; a condition for each filter
/// that is given (topic, creator and sender of the parsed fields, transaction hash, lowest
/// and highest ledger); newest first; then the page size and offset.
pub open spec fn spec_list_query(q: EventQuery) -> Seq<QueryPartModel> {
    seq![QueryPartModel::Sql(LIST_EVENTS_SQL@)]
        + text_filter(" AND topic = "@, q.topic)
        + text_filter(" AND parsed_data->'fields'->>'creator' = "@, q.creator)
        + text_filter(" AND parsed_data->'fields'->>'sender' = "@, q.sender)
        + text_filter(" AND tx_hash = "@, q.tx_hash)
        + int_filter(" AND ledger >= "@, q.min_ledger)
        + int_filter(" AND ledger <= "@, q.max_ledger)
        + seq![
        QueryPartModel::Sql(" ORDER BY ledger DESC, created_at DESC"@),
        QueryPartModel::Sql(" LIMIT "@),
        QueryPartModel::BindInt(spec_page_limit(q.limit) as int),
        QueryPartModel::Sql(" OFFSET "@),
        QueryPartModel::BindInt(spec_page_offset(q.offset) as int),
    ]
}

/// The models of a list of query pieces.
pub open spec fn parts_view(v: Seq<QueryPart>) -> Seq<QueryPartModel> {
    Seq::new(v.len(), |i: int| v[i]@)
}

/// The page size of a request: 50 when none is given, held between 1 and 500.
pub fn page_limit(limit: Option<u32>) -> (r: i64)
    ensures
        r == spec_page_limit(limit),
{
    let l = match limit {
        Some(l) => l,
        None => DEFAULT_LIMIT,
    };
    if l < 1 {
        1
    } else if l > MAX_LIMIT {
        MAX_LIMIT as i64
    } else {
        l as i64
    }
}

/// The offset of a request: 0 when none is given.
pub fn page_offset(offset: Option<u32>) -> (r: i64)
    ensures
        r == spec_page_offset(offset),
{
    match offset {
        Some(o) => o as i64,
        None => 0,
    }
}

fn push_text_filter(parts: &mut Vec<QueryPart>, sql: &str, v: &Option<String>)
    ensures
        parts_view(final(parts)@) == parts_view(old(parts)@) + text_filter(sql@, *v),
{
    match v {
        Some(x) => {
            parts.push(QueryPart::Sql(owned(sql)));
            parts.push(QueryPart::BindText(x.clone()));
        },
        None => {},
    }
    assert(parts_view(parts@) =~= parts_view(old(parts)@) + text_filter(sql@, *v));
}

fn push_int_filter(parts: &mut Vec<QueryPart>, sql: &str, v: Option<i64>)
    ensures
        parts_view(final(parts)@) == parts_view(old(parts)@) + int_filter(sql@, v),
{
    match v {
        Some(x) => {
            parts.push(QueryPart::Sql(owned(sql)));
            parts.push(QueryPart::BindInt(x));
        },
        None => {},
    }
    assert(parts_view(parts@) =~= parts_view(old(parts)@) + int_filter(sql@, v));
}

/// The pieces of the listing query of `q`, in the order they are pushed onto the query
/// builder.
pub fn list_events_query(q: &EventQuery) -> (r: Vec<QueryPart>)
    ensures
        parts_view(r@) == spec_list_query(*q),
{
    let limit = page_limit(q.limit);
    let offset = page_offset(q.offset);
    let mut parts: Vec<QueryPart> = Vec::new();
    parts.push(QueryPart::Sql(owned(LIST_EVENTS_SQL)));
    assert(parts_view(parts@) =~= seq![QueryPartModel::Sql(LIST_EVENTS_SQL@)]);
    push_text_filter(&mut parts, " AND topic = ", &q.topic);
    push_text_filter(&mut parts, " AND parsed_data->'fields'->>'creator' = ", &q.creator);
    push_text_filter(&mut parts, " AND parsed_data->'fields'->>'sender' = ", &q.sender);
    push_text_filter(&mut parts, " AND tx_hash = ", &q.tx_hash);
    push_int_filter(&mut parts, " AND ledger >= ", q.min_ledger);
    push_int_filter(&mut parts, " AND ledger <= ", q.max_ledger);
    let ghost before = parts_view(parts@);
    parts.push(QueryPart::Sql(owned(" ORDER BY ledger DESC, created_at DESC")));
    parts.push(QueryPart::Sql(owned(" LIMIT ")));
    parts.push(QueryPart::BindInt(limit));
    parts.push(QueryPart::Sql(owned(" OFFSET ")));
    parts.push(QueryPart::BindInt(offset));
    assert(parts_view(parts@) =~= before + seq![
        QueryPartModel::Sql(" ORDER BY ledger DESC, created_at DESC"@),
        QueryPartModel::Sql(" LIMIT "@),
        QueryPartModel::BindInt(limit as int),
        QueryPartModel::Sql(" OFFSET "@),
        QueryPartModel::BindInt(offset as int),
    ]);
    parts
}

/// Whether a query piece is SQL comparing the ledger with a bound.
pub open spec fn is_ledger_bound(p: QueryPartModel) -> bool {
    p == QueryPartModel::Sql(" AND ledger >= "@) || p == QueryPartModel::Sql(" AND ledger <= "@)
}

proof fn lemma_text_filter_no_bound(sql: Seq<char>, v: Option<String>)
    requires
        sql != " AND ledger >= "@,
        sql != " AND ledger <= "@,
    ensures
        forall|j: int| 0 <= j < text_filter(sql, v).len() ==> !is_ledger_bound(#[trigger] text_filter(sql, v)[j]),
{
}

/// A listing bounds the ledger from below exactly when `min_ledger` is given and from
/// above exactly when `max_ledger` is given: the SQL ` AND ledger >= ` occurs only then and
/// is followed by the bound value `min_ledger`, and ` AND ledger <= ` occurs only then and is
/// followed by `max_ledger`, so every listed event lies within the given bounds.
pub proof fn lemma_ledger_bounds(q: EventQuery)
    ensures
        ({
            let parts = spec_list_query(q);
            &&& (exists|i: int| 0 <= i < parts.len() && #[trigger] parts[i] == QueryPartModel::Sql(" AND ledger >= "@))
                <==> q.min_ledger is Some
            &&& (exists|i: int| 0 <= i < parts.len() && #[trigger] parts[i] == QueryPartModel::Sql(" AND ledger <= "@))
                <==> q.max_ledger is Some
            &&& forall|i: int| 0 <= i < parts.len() && #[trigger] parts[i] == QueryPartModel::Sql(" AND ledger >= "@)
                ==> i + 1 < parts.len() && parts[i + 1] == QueryPartModel::BindInt(q.min_ledger->0 as int)
            &&& forall|i: int| 0 <= i < parts.len() && #[trigger] parts[i] == QueryPartModel::Sql(" AND ledger <= "@)
                ==> i + 1 < parts.len() && parts[i + 1] == QueryPartModel::BindInt(q.max_ledger->0 as int)
        }),
{
    reveal_strlit("SELECT event_id, contract_id, cursor, ledger, ledger_closed_at, topic, topic_values,
                  event_data, parsed_data, raw_event, tx_hash, successful_call, created_at
           FROM contract_events WHERE 1 = 1");
    reveal_strlit(" AND ledger >= ");
    reveal_strlit(" AND ledger <= ");
    reveal_strlit(" AND topic = ");
    reveal_strlit(" AND parsed_data->'fields'->>'creator' = ");
    reveal_strlit(" AND parsed_data->'fields'->>'sender' = ");
    reveal_strlit(" AND tx_hash = ");
    reveal_strlit(" ORDER BY ledger DESC, created_at DESC");
    reveal_strlit(" LIMIT ");
    reveal_strlit(" OFFSET ");
    let ge = " AND ledger >= "@;
    let le = " AND ledger <= "@;
    assert(ge.len() == 15 && le.len() == 15 && ge[12] == '>' && le[12] == '<' && ge[5] == 'l' && le[5] == 'l');
    assert(ge != le);
    assert(LIST_EVENTS_SQL@[0] == 'S' && ge[0] == ' ' && le[0] == ' ');
    assert(" AND topic = "@.len() == 13);
    assert(" AND parsed_data->'fields'->>'creator' = "@.len() == 41);
    assert(" AND parsed_data->'fields'->>'sender' = "@.len() == 40);
    assert(" AND tx_hash = "@.len() == 15 && " AND tx_hash = "@[5] == 't');
    assert(" ORDER BY ledger DESC, created_at DESC"@.len() == 38);
    assert(" LIMIT "@.len() == 7 && " OFFSET "@.len() == 8);
    let base = seq![QueryPartModel::Sql(LIST_EVENTS_SQL@)];
    let t1 = text_filter(" AND topic = "@, q.topic);
    let t2 = text_filter(" AND parsed_data->'fields'->>'creator' = "@, q.creator);
    let t3 = text_filter(" AND parsed_data->'fields'->>'sender' = "@, q.sender);
    let t4 = text_filter(" AND tx_hash = "@, q.tx_hash);
    lemma_text_filter_no_bound(" AND topic = "@, q.topic);
    lemma_text_filter_no_bound(" AND parsed_data->'fields'->>'creator' = "@, q.creator);
    lemma_text_filter_no_bound(" AND parsed_data->'fields'->>'sender' = "@, q.sender);
    lemma_text_filter_no_bound(" AND tx_hash = "@, q.tx_hash);
    let pre = base + t1 + t2 + t3 + t4;
    assert forall|j: int| 0 <= j < pre.len() implies !is_ledger_bound(#[trigger] pre[j]) by {
        if j < 1 {
            assert(pre[j] == base[j]);
        } else if j < 1 + t1.len() {
            assert(pre[j] == t1[j - 1]);
        } else if j < 1 + t1.len() + t2.len() {
            assert(pre[j] == t2[j - 1 - t1.len()]);
        } else if j < 1 + t1.len() + t2.len() + t3.len() {
            assert(pre[j] == t3[j - 1 - t1.len() - t2.len()]);
        } else {
            assert(pre[j] == t4[j - 1 - t1.len() - t2.len() - t3.len()]);
        }
    }
    let m = int_filter(ge, q.min_ledger);
    let x = int_filter(le, q.max_ledger);
    let tail = seq![
        QueryPartModel::Sql(" ORDER BY ledger DESC, created_at DESC"@),
        QueryPartModel::Sql(" LIMIT "@),
        QueryPartModel::BindInt(spec_page_limit(q.limit) as int),
        QueryPartModel::Sql(" OFFSET "@),
        QueryPartModel::BindInt(spec_page_offset(q.offset) as int),
    ];
    assert forall|j: int| 0 <= j < tail.len() implies !is_ledger_bound(#[trigger] tail[j]) by {}
    let parts = spec_list_query(q);
    assert(parts == pre + m + x + tail);
    let a = pre.len() as int;
    let b = a + m.len();
    let c = b + x.len();
    assert forall|i: int| 0 <= i < parts.len() && #[trigger] parts[i] == QueryPartModel::Sql(ge) implies i == a
        && q.min_ledger is Some && i + 1 < parts.len() && parts[i + 1] == QueryPartModel::BindInt(q.min_ledger->0 as int) by {
        if i < a {
            assert(parts[i] == pre[i]);
        } else if i < b {
            assert(parts[i] == m[i - a]);
        } else if i < c {
            assert(parts[i] == x[i - b]);
        } else {
            assert(parts[i] == tail[i - c]);
        }
    }
    assert forall|i: int| 0 <= i < parts.len() && #[trigger] parts[i] == QueryPartModel::Sql(le) implies i == b
        && q.max_ledger is Some && i + 1 < parts.len() && parts[i + 1] == QueryPartModel::BindInt(q.max_ledger->0 as int) by {
        if i < a {
            assert(parts[i] == pre[i]);
        } else if i < b {
            assert(parts[i] == m[i - a]);
        } else if i < c {
            assert(parts[i] == x[i - b]);
        } else {
            assert(parts[i] == tail[i - c]);
        }
    }
    if q.min_ledger is Some {
        assert(parts[a] == QueryPartModel::Sql(ge));
    }
    if q.max_ledger is Some {
        assert(parts[b] == QueryPartModel::Sql(le));
    }
}

/// A listing without a page size asks for 50 events; a requested size from 1 to 500 is
/// used as given, 0 becomes 1 and anything above 500 becomes 500. Without an offset it
/// starts at the first event, otherwise at the requested one.
pub proof fn lemma_page_size_and_offset(limit: Option<u32>, offset: Option<u32>)
    ensures
        limit is None ==> spec_page_limit(limit) == 50,
        limit matches Some(l) ==> (1 <= l <= 500 ==> spec_page_limit(limit) == l),
        limit == Some(0u32) ==> spec_page_limit(limit) == 1,
        limit matches Some(l) ==> (l > 500 ==> spec_page_limit(limit) == 500),
        offset is None ==> spec_page_offset(offset) == 0,
        offset matches Some(o) ==> spec_page_offset(offset) == o,
{
}

} // verus!
