//! Contract events as the event source delivers them, and the decisions of the
//! listener that pages through them: request parameters, paging cursors, replay
//! bookkeeping and retry back-off.

use vstd::prelude::*;
use vstd::arithmetic::power2::{pow2, lemma_pow2_unfold, lemma_pow2_pos, lemma2_to64};
use crate::json::{
    JsonValue, items_model, JsonModel, members_model, json_member, json_object, json_array, json_string,
    json_u64,
};
use crate::text::{dec, signed_dec, i64_text, join3, join2, owned, trim_end_char, trim_end_matches_char, usize_text, u64_text};

verus! {

/// One contract event as the event source reports it.
pub struct RawContractEvent {
    pub id: String,
    pub paging_token: Option<String>,
    pub contract_id: Option<String>,
    pub ledger: i64,
    /// When the ledger closed, as an RFC 3339 timestamp.
    pub ledger_closed_at: Option<String>,
    pub topic: Vec<JsonValue>,
    pub value: JsonValue,
    pub tx_hash: Option<String>,
    pub in_successful_contract_call: Option<bool>,
}

impl RawContractEvent {
    /// The models of the topic entries, in order.
    pub open spec fn topic_model(&self) -> Seq<JsonModel> {
        items_model(self.topic@)
    }

    /// The paging position of this event: its paging token, or its id when it has none.
    pub open spec fn spec_cursor(&self) -> Seq<char> {
        match self.paging_token {
            Some(t) => t@,
            None => self.id@,
        }
    }

    /// The paging position of this event: its paging token, or its id when it has none.
    pub fn cursor(&self) -> (r: String)
        ensures
            r@ == self.spec_cursor(),
    {
        match &self.paging_token {
            Some(t) => t.clone(),
            None => self.id.clone(),
        }
    }
}

/// Where the listener asks for events, and how many at a time.
pub struct HorizonClient {
    pub rpc_url: String,
    pub page_size: usize,
}

/// The URL of the REST `/events` endpoint under `base`: `base` without trailing slashes,
/// then `/events`.
pub open spec fn spec_events_url(base: Seq<char>) -> Seq<char> {
    trim_end_char(base, '/') + "/events"@
}

/// The query pairs of a REST page request: ascending order, the page size, the contract,
/// then the cursor when there is one, else the start ledger when there is one.
pub open spec fn spec_rest_query(
    page_size: usize,
    contract_id: Seq<char>,
    cursor: Option<Seq<char>>,
    start_ledger: Option<u64>,
) -> Seq<(Seq<char>, Seq<char>)> {
    let head = seq![
        ("order"@, "asc"@),
        ("limit"@, dec(page_size as nat)),
        ("contract_ids"@, contract_id),
    ];
    match cursor {
        Some(c) => head.push(("cursor"@, c)),
        None => match start_ledger {
            Some(l) => head.push(("start_ledger"@, dec(l as nat))),
            None => head,
        },
    }
}

/// The view of a sequence of string pairs.
pub open spec fn pairs_view(v: Seq<(String, String)>) -> Seq<(Seq<char>, Seq<char>)> {
    Seq::new(v.len(), |i: int| (v[i].0@, v[i].1@))
}

/// The view of an optional borrowed string.
pub open spec fn opt_str_view(o: Option<&str>) -> Option<Seq<char>> {
    match o {
        Some(s) => Some(s@),
        None => None,
    }
}

/// The `params` of an RPC `getEvents` call: a contract filter for `contract_id`, the page
/// size (and the cursor, when there is one) under `pagination`, and `startLedger` when
/// there is no cursor but a start ledger. Members are in key order.
pub open spec fn spec_rpc_params(
    page_size: usize,
    contract_id: Seq<char>,
    cursor: Option<Seq<char>>,
    start_ledger: Option<u64>,
) -> JsonModel {
    let filter = JsonModel::Object(
        seq![
            ("contractIds"@, JsonModel::Array(seq![JsonModel::Str(contract_id)])),
            ("type"@, JsonModel::Str("contract"@)),
        ],
    );
    let limit = ("limit"@, JsonModel::Number(dec(page_size as nat)));
    let pagination = match cursor {
        Some(c) => JsonModel::Object(seq![("cursor"@, JsonModel::Str(c)), limit]),
        None => JsonModel::Object(seq![limit]),
    };
    let head = seq![("filters"@, JsonModel::Array(seq![filter])), ("pagination"@, pagination)];
    match (cursor, start_ledger) {
        (None, Some(l)) => JsonModel::Object(head.push(("startLedger"@, JsonModel::Number(dec(l as nat))))),
        _ => JsonModel::Object(head),
    }
}

/// The body of an RPC `getEvents` call, members in key order.
pub open spec fn spec_rpc_body(
    page_size: usize,
    contract_id: Seq<char>,
    cursor: Option<Seq<char>>,
    start_ledger: Option<u64>,
) -> JsonModel {
    JsonModel::Object(
        seq![
            ("id"@, JsonModel::Str("tipjar-indexer"@)),
            ("jsonrpc"@, JsonModel::Str("2.0"@)),
            ("method"@, JsonModel::Str("getEvents"@)),
            ("params"@, spec_rpc_params(page_size, contract_id, cursor, start_ledger)),
        ],
    )
}

impl HorizonClient {
    /// A client for the endpoint `rpc_url`, asking for `page_size` events per page.
    pub fn new(rpc_url: String, page_size: usize) -> (r: HorizonClient)
        ensures
            r.rpc_url@ == rpc_url@,
            r.page_size == page_size,
    {
        HorizonClient { rpc_url, page_size }
    }

    /// The URL of the REST `/events` endpoint.
    pub fn events_url(&self) -> (r: String)
        ensures
            r@ == spec_events_url(self.rpc_url@),
    {
        let base = trim_end_matches_char(self.rpc_url.as_str(), '/');
        proof {
            reveal_strlit("/events");
        }
        join2(base.as_str(), "/events")
    }

    /// The query pairs of a REST page request.
    pub fn rest_query(&self, contract_id: &str, cursor: Option<&str>, start_ledger: Option<u64>) -> (r: Vec<
        (String, String),
    >)
        ensures
            pairs_view(r@) == spec_rest_query(self.page_size, contract_id@, opt_str_view(cursor), start_ledger),
    {
        let mut q: Vec<(String, String)> = Vec::new();
        q.push((owned("order"), owned("asc")));
        q.push((owned("limit"), usize_text(self.page_size)));
        q.push((owned("contract_ids"), owned(contract_id)));
        match cursor {
            Some(c) => {
                q.push((owned("cursor"), owned(c)));
            },
            None => match start_ledger {
                Some(l) => {
                    q.push((owned("start_ledger"), u64_text(l)));
                },
                None => {},
            },
        }
        assert(pairs_view(q@) =~= spec_rest_query(
            self.page_size,
            contract_id@,
            opt_str_view(cursor),
            start_ledger,
        ));
        q
    }

    /// The `params` of an RPC `getEvents` call.
    pub fn rpc_params(&self, contract_id: &str, cursor: Option<&str>, start_ledger: Option<u64>) -> (r:
        JsonValue)
        ensures
            r@ == spec_rpc_params(self.page_size, contract_id@, opt_str_view(cursor), start_ledger),
    {
        let mut ids: Vec<JsonValue> = Vec::new();
        ids.push(json_string(contract_id));
        let ids_v = json_array(ids);
        assert(items_model(ids@) =~= seq![JsonModel::Str(contract_id@)]);
        let mut fm: Vec<(String, JsonValue)> = Vec::new();
        fm.push(json_member("contractIds", ids_v));
        fm.push(json_member("type", json_string("contract")));
        let filter = json_object(fm);
        let ghost filter_m = filter@;
        assert(members_model(fm@) =~= seq![
            ("contractIds"@, JsonModel::Array(seq![JsonModel::Str(contract_id@)])),
            ("type"@, JsonModel::Str("contract"@)),
        ]);
        let mut filters: Vec<JsonValue> = Vec::new();
        filters.push(filter);
        let filters_v = json_array(filters);
        assert(items_model(filters@) =~= seq![filter_m]);
        let limit = json_member("limit", json_u64(self.page_size as u64));
        let mut pm: Vec<(String, JsonValue)> = Vec::new();
        match cursor {
            Some(c) => {
                pm.push(json_member("cursor", json_string(c)));
            },
            None => {},
        }
        pm.push(limit);
        let pagination = json_object(pm);
        let ghost lim = ("limit"@, JsonModel::Number(dec(self.page_size as nat)));
        assert(members_model(pm@) =~= match opt_str_view(cursor) {
            Some(c) => seq![("cursor"@, JsonModel::Str(c)), lim],
            None => seq![lim],
        });
        let mut top: Vec<(String, JsonValue)> = Vec::new();
        top.push(json_member("filters", filters_v));
        top.push(json_member("pagination", pagination));
        match (cursor, start_ledger) {
            (None, Some(l)) => {
                top.push(json_member("startLedger", json_u64(l)));
            },
            _ => {},
        }
        let r = json_object(top);
        assert(members_model(top@) =~= match (opt_str_view(cursor), start_ledger) {
            (None, Some(l)) => seq![("filters"@, filters_v@), ("pagination"@, pagination@)].push(("startLedger"@, JsonModel::Number(dec(l as nat)))),
            _ => seq![("filters"@, filters_v@), ("pagination"@, pagination@)],
        });
        assert(r@ =~~= spec_rpc_params(self.page_size, contract_id@, opt_str_view(cursor), start_ledger));
        r
    }

    /// The body of an RPC `getEvents` call.
    pub fn rpc_body(&self, contract_id: &str, cursor: Option<&str>, start_ledger: Option<u64>) -> (r:
        JsonValue)
        ensures
            r@ == spec_rpc_body(self.page_size, contract_id@, opt_str_view(cursor), start_ledger),
    {
        let params = self.rpc_params(contract_id, cursor, start_ledger);
        let mut top: Vec<(String, JsonValue)> = Vec::new();
        top.push(json_member("id", json_string("tipjar-indexer")));
        top.push(json_member("jsonrpc", json_string("2.0")));
        top.push(json_member("method", json_string("getEvents")));
        top.push(json_member("params", params));
        let r = json_object(top);
        assert(members_model(top@) =~= seq![
            ("id"@, JsonModel::Str("tipjar-indexer"@)),
            ("jsonrpc"@, JsonModel::Str("2.0"@)),
            ("method"@, JsonModel::Str("getEvents"@)),
            ("params"@, params@),
        ]);
        assert(r@ =~~= spec_rpc_body(self.page_size, contract_id@, opt_str_view(cursor), start_ledger));
        r
    }
}

/// One page of events with what the source said of its position.
pub struct EventsPage {
    pub events: Vec<RawContractEvent>,
    pub latest_ledger: Option<u64>,
    pub next_cursor: Option<String>,
}

/// The error of an RPC reply.
pub struct RpcError {
    pub code: i64,
    pub message: String,
}

/// The `result` of an RPC `getEvents` reply.
pub struct RpcEventsResult {
    pub events: Vec<RawContractEvent>,
    pub latest_ledger: Option<u64>,
    pub cursor: Option<String>,
}

/// Why a page of events could not be had from a reply.
pub enum FetchError {
    /// The RPC reply carried an error.
    Rpc { code: i64, message: String },
    /// The RPC reply carried neither an error nor a result.
    MissingResult,
    /// The REST payload held no list of records.
    MissingRecords,
}

/// The records of a REST `/events` payload: `_embedded.records` when it is an array,
/// else `events` when that is an array.
pub open spec fn spec_rest_records(payload: JsonModel) -> Option<Seq<JsonModel>> {
    let embedded = match payload.get("_embedded"@) {
        Some(e) => match e.get("records"@) {
            Some(r) => r.as_array(),
            None => None,
        },
        None => None,
    };
    match embedded {
        Some(a) => Some(a),
        None => match payload.get("events"@) {
            Some(e) => e.as_array(),
            None => None,
        },
    }
}

/// The latest ledger of a REST payload: the `latest_ledger` member when there is one,
/// else `latestLedger`, read as an unsigned integer.
pub open spec fn spec_rest_latest_ledger(payload: JsonModel) -> Option<u64> {
    let m = match payload.get("latest_ledger"@) {
        Some(v) => Some(v),
        None => payload.get("latestLedger"@),
    };
    match m {
        Some(v) => v.as_u64(),
        None => None,
    }
}

/// The paging position after a list of events: the cursor of the last one.
pub open spec fn spec_last_cursor(events: Seq<RawContractEvent>) -> Option<Seq<char>> {
    if events.len() == 0 {
        None
    } else {
        Some(events.last().spec_cursor())
    }
}

/// The view of an optional string.
pub open spec fn opt_string_view(o: Option<String>) -> Option<Seq<char>> {
    match o {
        Some(s) => Some(s@),
        None => None,
    }
}

/// The records of a REST `/events` payload.
pub fn rest_records(payload: &JsonValue) -> (r: Option<&Vec<JsonValue>>)
    ensures
        match r {
            Some(items) => spec_rest_records(payload@) == Some(items_model(items@)),
            None => spec_rest_records(payload@) is None,
        },
{
    let embedded = match payload.get("_embedded") {
        Some(e) => match e.get("records") {
            Some(rec) => rec.as_array(),
            None => None,
        },
        None => None,
    };
    match embedded {
        Some(a) => Some(a),
        None => match payload.get("events") {
            Some(e) => e.as_array(),
            None => None,
        },
    }
}

/// The latest ledger that a REST payload reports.
pub fn rest_latest_ledger(payload: &JsonValue) -> (r: Option<u64>)
    ensures
        r == spec_rest_latest_ledger(payload@),
{
    let m = match payload.get("latest_ledger") {
        Some(v) => Some(v),
        None => payload.get("latestLedger"),
    };
    match m {
        Some(v) => v.as_u64(),
        None => None,
    }
}

/// The cursor of the last event, if any.
pub fn last_cursor(events: &Vec<RawContractEvent>) -> (r: Option<String>)
    ensures
        opt_string_view(r) == spec_last_cursor(events@),
{
    if events.len() == 0 {
        None
    } else {
        Some(events[events.len() - 1].cursor())
    }
}

/// The page made of the records of a REST reply: the next cursor is that of the last event.
pub fn rest_page(events: Vec<RawContractEvent>, latest_ledger: Option<u64>) -> (r: EventsPage)
    ensures
        r.events@ == events@,
        r.latest_ledger == latest_ledger,
        opt_string_view(r.next_cursor) == spec_last_cursor(events@),
{
    let next_cursor = last_cursor(&events);
    EventsPage { events, latest_ledger, next_cursor }
}

/// The page made of an RPC reply: its error when it has one; otherwise its result, whose
/// next cursor is the one the result names or else that of its last event; missing when
/// there is neither.
pub fn rpc_page(error: Option<RpcError>, result: Option<RpcEventsResult>) -> (r: Result<EventsPage, FetchError>)
    ensures
        match error {
            Some(e) => r matches Err(FetchError::Rpc { code, message }) && code == e.code && message@ == e.message@,
            None => match result {
                None => r matches Err(FetchError::MissingResult),
                Some(res) => r matches Ok(page) && page.events@ == res.events@ && page.latest_ledger
                    == res.latest_ledger && opt_string_view(page.next_cursor) == match res.cursor {
                    Some(c) => Some(c@),
                    None => spec_last_cursor(res.events@),
                },
            },
        },
{
    match error {
        Some(e) => Err(FetchError::Rpc { code: e.code, message: e.message }),
        None => match result {
            None => Err(FetchError::MissingResult),
            Some(res) => {
                let next_cursor = match res.cursor {
                    Some(c) => Some(c),
                    None => last_cursor(&res.events),
                };
                Ok(EventsPage { events: res.events, latest_ledger: res.latest_ledger, next_cursor })
            },
        },
    }
}

impl FetchError {
    /// The text of this error.
    pub open spec fn spec_message(&self) -> Seq<char> {
        match self {
            FetchError::Rpc { code, message } => "rpc error "@ + signed_dec(*code as int) + ": "@ + message@,
            FetchError::MissingResult => "missing rpc result"@,
            FetchError::MissingRecords => "horizon /events payload missing records"@,
        }
    }

    /// The text of this error.
    pub fn message(&self) -> (r: String)
        ensures
            r@ == self.spec_message(),
    {
        match self {
            FetchError::Rpc { code, message } => {
                let c = i64_text(*code);
                let head = join3("rpc error ", c.as_str(), ": ");
                proof {
                    reveal_strlit("rpc error ");
                    reveal_strlit(": ");
                }
                join2(head.as_str(), message.as_str())
            },
            FetchError::MissingResult => owned("missing rpc result"),
            FetchError::MissingRecords => owned("horizon /events payload missing records"),
        }
    }
}

/// The ledger from which to start when there is no cursor: the start ledger only then.
pub open spec fn spec_request_start_ledger(cursor: Option<Seq<char>>, start_ledger: Option<u64>) -> Option<u64> {
    if cursor is None {
        start_ledger
    } else {
        None
    }
}

/// The start ledger of a page request: given only when there is no cursor.
pub fn request_start_ledger(cursor: &Option<String>, start_ledger: Option<u64>) -> (r: Option<u64>)
    ensures
        r == spec_request_start_ledger(opt_string_view(*cursor), start_ledger),
{
    match cursor {
        None => start_ledger,
        Some(_) => None,
    }
}

/// After a page, the listener moves to the page's next cursor when the page names one
/// (and keeps its cursor otherwise); it returns the cursor to store, if any.
pub fn advance_cursor(cursor: &mut Option<String>, next_cursor: Option<String>) -> (saved: Option<String>)
    ensures
        opt_string_view(*final(cursor)) == match next_cursor {
            Some(c) => Some(c@),
            None => opt_string_view(*old(cursor)),
        },
        opt_string_view(saved) == opt_string_view(next_cursor),
{
    match next_cursor {
        Some(c) => {
            let stored = c.clone();
            *cursor = Some(c);
            Some(stored)
        },
        None => None,
    }
}

/// The key under which the cursor of a contract is stored: `cursor:` and the contract id.
pub fn cursor_key(contract_id: &str) -> (r: String)
    ensures
        r@ == "cursor:"@ + contract_id@,
{
    proof {
        reveal_strlit("cursor:");
    }
    join2("cursor:", contract_id)
}

/// The contract an indexed event is filed under: its own when it names one, else the
/// listener's.
pub fn indexed_contract_id(event: &RawContractEvent, listener_contract: &str) -> (r: String)
    ensures
        r@ == match event.contract_id {
            Some(c) => c@,
            None => listener_contract@,
        },
{
    match &event.contract_id {
        Some(c) => c.clone(),
        None => owned(listener_contract),
    }
}

/// A request to index again a range of past events.
pub struct ReplayRequest {
    pub from_cursor: Option<String>,
    pub from_ledger: Option<u64>,
    pub to_ledger: Option<u64>,
    pub persist_cursor: Option<bool>,
}

/// What a replay did.
pub struct ReplaySummary {
    pub indexed_events: usize,
    pub failed_events: usize,
    pub last_cursor: Option<String>,
    pub latest_ledger_seen: Option<u64>,
}

/// The progress of a replay: where it stands and what it has counted so far.
pub struct ReplayState {
    pub cursor: Option<String>,
    pub indexed: usize,
    pub failed: usize,
    pub latest_ledger_seen: Option<u64>,
}

/// The cursor a replay starts from: the given one, with an empty cursor read as none.
pub open spec fn spec_start_cursor(cursor: Option<Seq<char>>) -> Option<Seq<char>> {
    match cursor {
        Some(c) => if c.len() == 0 {
            None
        } else {
            Some(c)
        },
        None => None,
    }
}

/// Whether a replay bounded by `to_ledger` goes on to an event of `ledger` (the ledger read
/// as an unsigned number, as the event source's numbers are).
pub open spec fn spec_admits(to_ledger: Option<u64>, ledger: i64) -> bool {
    match to_ledger {
        Some(max) => !((ledger as u64) > max),
        None => true,
    }
}

impl ReplayState {
    /// A replay that starts at `cursor` (the request's own cursor or, failing that, the
    /// stored one), having counted nothing.
    pub fn begin(cursor: Option<String>) -> (r: ReplayState)
        ensures
            opt_string_view(r.cursor) == spec_start_cursor(opt_string_view(cursor)),
            r.indexed == 0,
            r.failed == 0,
            r.latest_ledger_seen is None,
    {
        let c = match cursor {
            Some(c) => if c.as_str().is_empty() {
                None
            } else {
                Some(c)
            },
            None => None,
        };
        ReplayState { cursor: c, indexed: 0, failed: 0, latest_ledger_seen: None }
    }

    /// The start ledger of the next page request: the request's `from_ledger`, only while
    /// there is no cursor.
    pub fn start_ledger(&self, request: &ReplayRequest) -> (r: Option<u64>)
        ensures
            r == spec_request_start_ledger(opt_string_view(self.cursor), request.from_ledger),
    {
        request_start_ledger(&self.cursor, request.from_ledger)
    }

    /// Whether the replay goes on to an event of `ledger`: it stops at the first event past
    /// the request's `to_ledger`.
    pub fn admits(&self, request: &ReplayRequest, ledger: i64) -> (r: bool)
        ensures
            r == spec_admits(request.to_ledger, ledger),
    {
        match request.to_ledger {
            Some(max) => !((ledger as u64) > max),
            None => true,
        }
    }

    /// Counts one processed event of `ledger`, as indexed when `ok`, else as failed.
    pub fn record(&mut self, ledger: i64, ok: bool)
        requires
            ok ==> old(self).indexed < usize::MAX,
            !ok ==> old(self).failed < usize::MAX,
        ensures
            final(self).latest_ledger_seen == Some(ledger as u64),
            final(self).indexed == old(self).indexed + (if ok { 1int } else { 0int }),
            final(self).failed == old(self).failed + (if ok { 0int } else { 1int }),
            final(self).cursor == old(self).cursor,
    {
        self.latest_ledger_seen = Some(ledger as u64);
        if ok {
            self.indexed = self.indexed + 1;
        } else {
            self.failed = self.failed + 1;
        }
    }

    /// Moves past a page to `next_cursor`; returns the cursor to store when the request
    /// asks for the cursor to be kept and there is one.
    pub fn end_page(&mut self, request: &ReplayRequest, next_cursor: Option<String>) -> (r: Option<String>)
        ensures
            opt_string_view(final(self).cursor) == opt_string_view(next_cursor),
            final(self).indexed == old(self).indexed,
            final(self).failed == old(self).failed,
            final(self).latest_ledger_seen == old(self).latest_ledger_seen,
            opt_string_view(r) == if request.persist_cursor == Some(true) {
                opt_string_view(next_cursor)
            } else {
                None
            },
    {
        let keep = match request.persist_cursor {
            Some(b) => b,
            None => false,
        };
        let stored = if keep {
            match &next_cursor {
                Some(c) => Some(c.clone()),
                None => None,
            }
        } else {
            None
        };
        self.cursor = next_cursor;
        stored
    }

    /// What the replay did.
    pub fn summary(self) -> (r: ReplaySummary)
        ensures
            r.indexed_events == self.indexed,
            r.failed_events == self.failed,
            opt_string_view(r.last_cursor) == opt_string_view(self.cursor),
            r.latest_ledger_seen == self.latest_ledger_seen,
    {
        ReplaySummary {
            indexed_events: self.indexed,
            failed_events: self.failed,
            last_cursor: self.cursor,
            latest_ledger_seen: self.latest_ledger_seen,
        }
    }
}

/// The first pause between retries, in milliseconds.
pub const FIRST_DELAY_MS: u64 = 400;

/// The longest pause between retries, in milliseconds.
pub const MAX_DELAY_MS: u64 = 10000;

/// The pause before retry `n + 1` (counting from zero): it starts at 400 ms and doubles,
/// capped at 10 s.
pub open spec fn backoff_delay(n: nat) -> u64
    decreases n,
{
    if n == 0 {
        FIRST_DELAY_MS
    } else {
        let d = backoff_delay((n - 1) as nat);
        if 2 * d > MAX_DELAY_MS {
            MAX_DELAY_MS
        } else {
            (2 * d) as u64
        }
    }
}

/// The retry policy of an operation: how many failures it has had and how long to pause
/// before the next attempt.
pub struct Backoff {
    pub attempt: usize,
    pub delay_ms: u64,
    pub max_retries: usize,
}

impl Backoff {
    /// The policy keeps its pause in step with its failures, and gives up before counting
    /// past `max_retries + 1`.
    pub open spec fn wf(&self) -> bool {
        &&& self.attempt <= self.max_retries
        &&& self.delay_ms == backoff_delay(self.attempt as nat)
    }

    /// A policy that allows `max_retries` retries after the first attempt.
    pub fn new(max_retries: usize) -> (r: Backoff)
        ensures
            r.wf(),
            r.attempt == 0,
            r.max_retries == max_retries,
    {
        Backoff { attempt: 0, delay_ms: FIRST_DELAY_MS, max_retries }
    }

    /// Counts a failure; returns the pause before the next attempt, or `None` when the
    /// retries are spent.
    pub fn on_failure(&mut self) -> (r: Option<u64>)
        requires
            old(self).wf(),
            old(self).attempt < usize::MAX,
        ensures
            final(self).attempt == old(self).attempt + 1,
            final(self).max_retries == old(self).max_retries,
            r == if old(self).attempt + 1 > old(self).max_retries {
                None
            } else {
                Some(backoff_delay(old(self).attempt as nat))
            },
            r is Some ==> final(self).wf(),
    {
        self.attempt = self.attempt + 1;
        if self.attempt > self.max_retries {
            return None;
        }
        let d = self.delay_ms;
        self.delay_ms = if d > MAX_DELAY_MS / 2 {
            MAX_DELAY_MS
        } else {
            2 * d
        };
        Some(d)
    }
}

/// Every pause lies between 400 ms and 10 s, and no pause is shorter than the one before.
pub proof fn lemma_backoff_bounded(n: nat)
    ensures
        FIRST_DELAY_MS <= backoff_delay(n) <= MAX_DELAY_MS,
        backoff_delay(n) <= backoff_delay(n + 1),
    decreases n,
{
    if n > 0 {
        lemma_backoff_bounded((n - 1) as nat);
    }
}

/// The pause before retry `n + 1` is 400 ms times two to the `n`, capped at 10 s:
/// 400, 800, 1600, 3200, 6400, then 10000 ms from the sixth retry on.
pub proof fn lemma_backoff_closed_form(n: nat)
    ensures
        backoff_delay(n) == (if 400 * pow2(n) > 10000 {
            10000
        } else {
            400 * pow2(n)
        }),
    decreases n,
{
    if n == 0 {
        assert(pow2(0) == 1) by {
            lemma2_to64();
        }
    } else {
        lemma_backoff_closed_form((n - 1) as nat);
        lemma_pow2_unfold(n);
        lemma_pow2_pos((n - 1) as nat);
    }
}

} // verus!
