//! Royalties on tips to derivative content.
//!
//! Each creator may register the content it derives from; a tip to a creator then
//! pays a share to the original creator, whose own lineage may pay a share of what
//! remains further up, for a bounded number of levels.

use vstd::prelude::*;
use crate::text::{owned, str_eq};

verus! {

/// How many levels of lineage a tip may pay royalties to.
pub const MAX_DEPTH: u32 = 5;

/// The highest royalty rate, in basis points (30%); a registration asking for more is
/// capped at it.
pub const MAX_ROYALTY_BPS: u32 = 3000;

/// Royalty configuration for a piece of content.
pub struct RoyaltyConfig {
    /// The original creator who receives royalties.
    pub original_creator: String,
    /// Royalty rate in basis points (500 = 5%), at most [`MAX_ROYALTY_BPS`].
    pub rate_bps: u32,
    /// How many levels of lineage a tip may traverse (at most [`MAX_DEPTH`]).
    pub max_depth: u32,
}

/// A lineage record linking derivative content to its original.
pub struct ContentLineage {
    /// The derivative content creator.
    pub creator: String,
    /// The parent content creator (one level up).
    pub parent_creator: String,
    /// Royalty configuration of this link.
    pub royalty_config: RoyaltyConfig,
}

/// A royalty credited while distributing a tip: `amount` of the tip to `creator`
/// went to `recipient`, `depth` levels up the lineage.
pub struct RoyaltyPayment {
    pub recipient: String,
    pub creator: String,
    pub amount: i128,
    pub depth: u32,
}

/// The model of a royalty payment.
pub struct PaymentModel {
    pub recipient: Seq<char>,
    pub creator: Seq<char>,
    pub amount: int,
    pub depth: int,
}

impl View for RoyaltyPayment {
    type V = PaymentModel;

    open spec fn view(&self) -> PaymentModel {
        PaymentModel {
            recipient: self.recipient@,
            creator: self.creator@,
            amount: self.amount as int,
            depth: self.depth as int,
        }
    }
}

/// The persistent royalty state: configurations and lineage records by creator,
/// royalty balances by creator and token, and the log of royalty payments made.
pub struct RoyaltyStore {
    configs: Vec<(String, RoyaltyConfig)>,
    lineages: Vec<(String, ContentLineage)>,
    balances: Vec<(String, String, i128)>,
    events: Vec<RoyaltyPayment>,
}

/// Whether `i` is the first entry of `s` stored under `k`.
pub open spec fn first_at<V>(s: Seq<(String, V)>, k: Seq<char>, i: int) -> bool {
    &&& 0 <= i < s.len()
    &&& s[i].0@ == k
    &&& forall|j: int| 0 <= j < i ==> #[trigger] s[j].0@ != k
}

/// The value stored under `k`: that of the first entry with that key.
pub open spec fn lookup<V>(s: Seq<(String, V)>, k: Seq<char>) -> Option<V> {
    if exists|i: int| first_at(s, k, i) {
        Some(s[choose|i: int| first_at(s, k, i)].1)
    } else {
        None
    }
}

/// Whether `i` is the first balance entry of `s` for `creator` and `token`.
pub open spec fn first_balance_at(s: Seq<(String, String, i128)>, creator: Seq<char>, token: Seq<char>, i: int) -> bool {
    &&& 0 <= i < s.len()
    &&& s[i].0@ == creator && s[i].1@ == token
    &&& forall|j: int| 0 <= j < i ==> !(#[trigger] s[j].0@ == creator && s[j].1@ == token)
}

/// The balance recorded for `creator` and `token`, zero when none is.
pub open spec fn balance_in(s: Seq<(String, String, i128)>, creator: Seq<char>, token: Seq<char>) -> int {
    if exists|i: int| first_balance_at(s, creator, token, i) {
        s[choose|i: int| first_balance_at(s, creator, token, i)].2 as int
    } else {
        0
    }
}

pub proof fn lemma_lookup_at<V>(s: Seq<(String, V)>, k: Seq<char>, i: int)
    requires
        first_at(s, k, i),
    ensures
        lookup(s, k) == Some(s[i].1),
{
    let c = choose|i: int| first_at(s, k, i);
    assert(first_at(s, k, c));
    if c < i {
        assert(s[c].0@ != k);
    }
    if i < c {
        assert(s[i].0@ != k);
    }
}

pub proof fn lemma_lookup_none<V>(s: Seq<(String, V)>, k: Seq<char>)
    requires
        forall|j: int| 0 <= j < s.len() ==> #[trigger] s[j].0@ != k,
    ensures
        lookup(s, k) is None,
{
    if exists|i: int| first_at(s, k, i) {
        let c = choose|i: int| first_at(s, k, i);
        assert(s[c].0@ != k);
    }
}

/// A key that occurs has a first occurrence.
pub proof fn lemma_some_first<V>(s: Seq<(String, V)>, k: Seq<char>, m: int)
    requires
        0 <= m < s.len(),
        s[m].0@ == k,
    ensures
        exists|i: int| first_at(s, k, i),
    decreases m,
{
    if exists|j: int| 0 <= j < m && #[trigger] s[j].0@ == k {
        let j = choose|j: int| 0 <= j < m && #[trigger] s[j].0@ == k;
        lemma_some_first(s, k, j);
    } else {
        assert(first_at(s, k, m));
    }
}

/// Replacing the value of the first entry under `k` leaves every other key's value alone.
pub proof fn lemma_lookup_update<V>(s: Seq<(String, V)>, k: Seq<char>, i: int, entry: (String, V), other: Seq<char>)
    requires
        first_at(s, k, i),
        entry.0@ == k,
    ensures
        lookup(s.update(i, entry), k) == Some(entry.1),
        other != k ==> lookup(s.update(i, entry), other) == lookup(s, other),
{
    let t = s.update(i, entry);
    assert(first_at(t, k, i));
    lemma_lookup_at(t, k, i);
    if other != k {
        if exists|j: int| first_at(s, other, j) {
            let j = choose|j: int| first_at(s, other, j);
            lemma_lookup_at(s, other, j);
            assert(j != i);
            assert forall|m: int| 0 <= m < j implies #[trigger] t[m].0@ != other by {
                assert(s[m].0@ != other);
            }
            assert(first_at(t, other, j));
            lemma_lookup_at(t, other, j);
        } else {
            assert forall|m: int| 0 <= m < t.len() implies #[trigger] t[m].0@ != other by {
                if m != i && t[m].0@ == other {
                    lemma_some_first(s, other, m);
                }
            }
            lemma_lookup_none(t, other);
        }
    }
}

/// Appending an entry under a key that is absent stores it and leaves every other key alone.
pub proof fn lemma_lookup_push<V>(s: Seq<(String, V)>, entry: (String, V), other: Seq<char>)
    requires
        forall|j: int| 0 <= j < s.len() ==> #[trigger] s[j].0@ != entry.0@,
    ensures
        lookup(s.push(entry), entry.0@) == Some(entry.1),
        other != entry.0@ ==> lookup(s.push(entry), other) == lookup(s, other),
{
    let t = s.push(entry);
    let k = entry.0@;
    assert(first_at(t, k, s.len() as int));
    lemma_lookup_at(t, k, s.len() as int);
    if other != k {
        if exists|j: int| first_at(s, other, j) {
            let j = choose|j: int| first_at(s, other, j);
            lemma_lookup_at(s, other, j);
            assert(first_at(t, other, j));
            lemma_lookup_at(t, other, j);
        } else {
            assert forall|m: int| 0 <= m < t.len() implies #[trigger] t[m].0@ != other by {
                if m < s.len() && t[m].0@ == other {
                    lemma_some_first(s, other, m);
                }
            }
            lemma_lookup_none(t, other);
        }
    }
}

pub proof fn lemma_balance_at(s: Seq<(String, String, i128)>, c: Seq<char>, t: Seq<char>, i: int)
    requires
        first_balance_at(s, c, t, i),
    ensures
        balance_in(s, c, t) == s[i].2 as int,
{
    let x = choose|i: int| first_balance_at(s, c, t, i);
    assert(first_balance_at(s, c, t, x));
    if x < i {
        assert(!(s[x].0@ == c && s[x].1@ == t));
    }
    if i < x {
        assert(!(s[i].0@ == c && s[i].1@ == t));
    }
}

pub proof fn lemma_some_first_balance(s: Seq<(String, String, i128)>, c: Seq<char>, t: Seq<char>, m: int)
    requires
        0 <= m < s.len(),
        s[m].0@ == c && s[m].1@ == t,
    ensures
        exists|i: int| first_balance_at(s, c, t, i),
    decreases m,
{
    if exists|j: int| 0 <= j < m && #[trigger] s[j].0@ == c && s[j].1@ == t {
        let j = choose|j: int| 0 <= j < m && #[trigger] s[j].0@ == c && s[j].1@ == t;
        lemma_some_first_balance(s, c, t, j);
    } else {
        assert(first_balance_at(s, c, t, m));
    }
}

pub proof fn lemma_balance_none(s: Seq<(String, String, i128)>, c: Seq<char>, t: Seq<char>)
    requires
        forall|j: int| 0 <= j < s.len() ==> !(#[trigger] s[j].0@ == c && s[j].1@ == t),
    ensures
        balance_in(s, c, t) == 0,
{
    if exists|i: int| first_balance_at(s, c, t, i) {
        let x = choose|i: int| first_balance_at(s, c, t, i);
        assert(!(s[x].0@ == c && s[x].1@ == t));
    }
}

/// Storing a new balance for one creator and token leaves every other balance alone.
pub proof fn lemma_balance_set(
    s: Seq<(String, String, i128)>,
    t: Seq<(String, String, i128)>,
    c: Seq<char>,
    tok: Seq<char>,
    amount: i128,
    oc: Seq<char>,
    ot: Seq<char>,
)
    requires
        t.len() >= s.len(),
        exists|i: int| 0 <= i < t.len() && first_balance_at(t, c, tok, i) && t[i].2 == amount,
        forall|j: int| 0 <= j < s.len() && !(s[j].0@ == c && s[j].1@ == tok) ==> #[trigger] t[j] == s[j],
        forall|j: int| 0 <= j < s.len() && (s[j].0@ == c && s[j].1@ == tok) ==> (#[trigger] t[j]).0@ == c && t[j].1@ == tok,
        forall|j: int| s.len() <= j < t.len() ==> (#[trigger] t[j]).0@ == c && t[j].1@ == tok,
    ensures
        balance_in(t, c, tok) == amount as int,
        !(oc == c && ot == tok) ==> balance_in(t, oc, ot) == balance_in(s, oc, ot),
{
    let i = choose|i: int| 0 <= i < t.len() && first_balance_at(t, c, tok, i) && t[i].2 == amount;
    lemma_balance_at(t, c, tok, i);
    if !(oc == c && ot == tok) {
        if exists|j: int| first_balance_at(s, oc, ot, j) {
            let j = choose|j: int| first_balance_at(s, oc, ot, j);
            lemma_balance_at(s, oc, ot, j);
            assert(t[j] == s[j]);
            assert forall|m: int| 0 <= m < j implies !(#[trigger] t[m].0@ == oc && t[m].1@ == ot) by {
                if !(s[m].0@ == c && s[m].1@ == tok) {
                    assert(t[m] == s[m]);
                }
            }
            assert(first_balance_at(t, oc, ot, j));
            lemma_balance_at(t, oc, ot, j);
        } else {
            assert forall|m: int| 0 <= m < t.len() implies !(#[trigger] t[m].0@ == oc && t[m].1@ == ot) by {
                if m < s.len() && !(s[m].0@ == c && s[m].1@ == tok) {
                    assert(t[m] == s[m]);
                    if t[m].0@ == oc && t[m].1@ == ot {
                        lemma_some_first_balance(s, oc, ot, m);
                    }
                }
            }
            lemma_balance_none(t, oc, ot);
        }
    }
}

/// The position of the first entry stored under `k`.
fn find_key<V>(s: &Vec<(String, V)>, k: &str) -> (r: Option<usize>)
    ensures
        match r {
            Some(i) => first_at(s@, k@, i as int),
            None => forall|j: int| 0 <= j < s@.len() ==> #[trigger] s@[j].0@ != k@,
        },
{
    let n = s.len();
    for i in 0..n
        invariant
            n == s@.len(),
            forall|j: int| 0 <= j < i ==> #[trigger] s@[j].0@ != k@,
    {
        if str_eq(s[i].0.as_str(), k) {
            return Some(i);
        }
    }
    None
}

/// The position of the first balance entry for `c` and `t`.
fn find_balance(s: &Vec<(String, String, i128)>, c: &str, t: &str) -> (r: Option<usize>)
    ensures
        match r {
            Some(i) => first_balance_at(s@, c@, t@, i as int),
            None => forall|j: int| 0 <= j < s@.len() ==> !(#[trigger] s@[j].0@ == c@ && s@[j].1@ == t@),
        },
{
    let n = s.len();
    for i in 0..n
        invariant
            n == s@.len(),
            forall|j: int| 0 <= j < i ==> !(#[trigger] s@[j].0@ == c@ && s@[j].1@ == t@),
    {
        if str_eq(s[i].0.as_str(), c) && str_eq(s[i].1.as_str(), t) {
            return Some(i);
        }
    }
    None
}

/// The total of the payments in `paid` that went to `recipient`.
pub open spec fn paid_to(paid: Seq<PaymentModel>, recipient: Seq<char>) -> int
    decreases paid.len(),
{
    if paid.len() == 0 {
        0
    } else {
        paid_to(paid.drop_last(), recipient) + if paid.last().recipient == recipient {
            paid.last().amount
        } else {
            0
        }
    }
}

/// The rate a registration stores: the requested rate, capped at [`MAX_ROYALTY_BPS`].
pub open spec fn clamp_rate(rate_bps: u32) -> u32 {
    if rate_bps < MAX_ROYALTY_BPS {
        rate_bps
    } else {
        MAX_ROYALTY_BPS
    }
}

/// The depth limit a registration stores: the default for zero, otherwise at most the
/// global limit.
pub open spec fn clamp_depth(max_depth: u32) -> u32 {
    if max_depth == 0 {
        MAX_DEPTH
    } else if max_depth < MAX_DEPTH {
        max_depth
    } else {
        MAX_DEPTH
    }
}

impl RoyaltyStore {
    /// Every stored lineage record limits its depth to [`MAX_DEPTH`] and its rate to
    /// [`MAX_ROYALTY_BPS`], and so does every stored configuration.
    pub closed spec fn wf(&self) -> bool {
        &&& forall|i: int|
            0 <= i < self.lineages@.len() ==> (#[trigger] self.lineages@[i]).1.royalty_config.max_depth
                <= MAX_DEPTH && self.lineages@[i].1.royalty_config.rate_bps <= MAX_ROYALTY_BPS
        &&& forall|i: int|
            0 <= i < self.configs@.len() ==> (#[trigger] self.configs@[i]).1.rate_bps <= MAX_ROYALTY_BPS
    }

    /// The royalty configuration registered for `creator`.
    pub closed spec fn config_of(&self, creator: Seq<char>) -> Option<RoyaltyConfig> {
        lookup(self.configs@, creator)
    }

    /// The lineage record registered for `creator`.
    pub closed spec fn lineage_of(&self, creator: Seq<char>) -> Option<ContentLineage> {
        lookup(self.lineages@, creator)
    }

    /// The royalty balance of `creator` in `token`.
    pub closed spec fn royalty_balance(&self, creator: Seq<char>, token: Seq<char>) -> int {
        balance_in(self.balances@, creator, token)
    }

    /// The royalty payments made so far, oldest first.
    pub closed spec fn payments(&self) -> Seq<PaymentModel> {
        self.events@.map_values(|e: RoyaltyPayment| e@)
    }

    /// An empty store.
    pub fn new() -> (s: RoyaltyStore)
        ensures
            s.wf(),
            forall|c: Seq<char>| #[trigger] s.config_of(c) is None,
            forall|c: Seq<char>| #[trigger] s.lineage_of(c) is None,
            forall|c: Seq<char>, t: Seq<char>| #[trigger] s.royalty_balance(c, t) == 0,
            s.payments() == Seq::<PaymentModel>::empty(),
    {
        let s = RoyaltyStore { configs: Vec::new(), lineages: Vec::new(), balances: Vec::new(), events: Vec::new() };
        assert forall|c: Seq<char>| #[trigger] s.config_of(c) is None by {
            lemma_lookup_none(s.configs@, c);
        }
        assert forall|c: Seq<char>| #[trigger] s.lineage_of(c) is None by {
            lemma_lookup_none(s.lineages@, c);
        }
        assert forall|c: Seq<char>, t: Seq<char>| #[trigger] s.royalty_balance(c, t) == 0 by {
            lemma_balance_none(s.balances@, c, t);
        }
        assert(s.payments() =~= Seq::<PaymentModel>::empty());
        s
    }

    /// The royalty payments made so far, oldest first.
    pub fn payment_log(&self) -> (r: &Vec<RoyaltyPayment>)
        ensures
            r@.map_values(|e: RoyaltyPayment| e@) == self.payments(),
    {
        &self.events
    }

    /// The royalty balance of `creator` in `token`.
    #[verifier::spinoff_prover]
    pub fn balance(&self, creator: &str, token: &str) -> (r: i128)
        ensures
            r as int == self.royalty_balance(creator@, token@),
    {
        match find_balance(&self.balances, creator, token) {
            Some(i) => {
                proof {
                    lemma_balance_at(self.balances@, creator@, token@, i as int);
                }
                self.balances[i].2
            },
            None => {
                proof {
                    lemma_balance_none(self.balances@, creator@, token@);
                }
                0
            },
        }
    }

    #[verifier::spinoff_prover]
    fn set_balance(&mut self, creator: &str, token: &str, amount: i128)
        ensures
            final(self).configs == old(self).configs,
            final(self).lineages == old(self).lineages,
            final(self).events == old(self).events,
            final(self).royalty_balance(creator@, token@) == amount as int,
            forall|c: Seq<char>, t: Seq<char>|
                !(c == creator@ && t == token@) ==> #[trigger] final(self).royalty_balance(c, t)
                    == old(self).royalty_balance(c, t),
    {
        let ghost s0 = self.balances@;
        let entry = (owned(creator), owned(token), amount);
        match find_balance(&self.balances, creator, token) {
            Some(i) => {
                self.balances.set(i, entry);
                proof {
                    assert(first_balance_at(self.balances@, creator@, token@, i as int));
                }
            },
            None => {
                self.balances.push(entry);
                proof {
                    assert(first_balance_at(self.balances@, creator@, token@, s0.len() as int));
                }
            },
        }
        proof {
            let t1 = self.balances@;
            assert forall|c: Seq<char>, t: Seq<char>|
                !(c == creator@ && t == token@) implies #[trigger] balance_in(t1, c, t) == balance_in(s0, c, t) by {
                lemma_balance_set(s0, t1, creator@, token@, amount, c, t);
            }
            lemma_balance_set(s0, t1, creator@, token@, amount, creator@, token@);
        }
    }
}

/// Stores `v` under `k`, replacing the first entry under `k` or appending one.
fn set_entry<V>(s: &mut Vec<(String, V)>, k: &str, v: V)
    ensures
        lookup(final(s)@, k@) == Some(v),
        forall|o: Seq<char>| o != k@ ==> #[trigger] lookup(final(s)@, o) == lookup(old(s)@, o),
        forall|i: int|
            0 <= i < final(s)@.len() ==> (#[trigger] final(s)@[i]).1 == v || (i < old(s)@.len()
                && final(s)@[i] == old(s)@[i]),
{
    let ghost s0 = s@;
    let ghost v0 = v;
    let key = owned(k);
    match find_key(s, k) {
        Some(i) => {
            s.set(i, (key, v));
            proof {
                assert(s@ == s0.update(i as int, (key, v0)));
                assert forall|o: Seq<char>| o != k@ implies #[trigger] lookup(s@, o) == lookup(s0, o) by {
                    lemma_lookup_update(s0, k@, i as int, (key, v0), o);
                }
                lemma_lookup_update(s0, k@, i as int, (key, v0), k@);
            }
        },
        None => {
            s.push((key, v));
            proof {
                assert forall|o: Seq<char>| o != k@ implies #[trigger] lookup(s@, o) == lookup(s0, o) by {
                    lemma_lookup_push(s0, (key, v0), o);
                }
                lemma_lookup_push(s0, (key, v0), k@);
            }
        },
    }
}

fn make_config(original_creator: &str, rate_bps: u32, max_depth: u32) -> (c: RoyaltyConfig)
    ensures
        c.original_creator@ == original_creator@,
        c.rate_bps == rate_bps,
        c.max_depth == max_depth,
{
    RoyaltyConfig { original_creator: owned(original_creator), rate_bps, max_depth }
}

/// Registers `original_creator` as the origin of `creator`'s content, with a royalty of
/// `rate_bps` basis points (capped at [`MAX_ROYALTY_BPS`]) over at most `max_depth`
/// levels (zero means [`MAX_DEPTH`]; larger values are capped at it). Stores both the
/// configuration and the lineage record.
pub fn register_royalty(
    store: &mut RoyaltyStore,
    creator: &str,
    original_creator: &str,
    rate_bps: u32,
    max_depth: u32,
)
    requires
        old(store).wf(),
    ensures
        final(store).wf(),
        final(store).config_of(creator@) matches Some(cfg) && cfg.original_creator@ == original_creator@
            && cfg.rate_bps == clamp_rate(rate_bps) && cfg.rate_bps <= MAX_ROYALTY_BPS
            && cfg.max_depth == clamp_depth(max_depth),
        final(store).lineage_of(creator@) matches Some(l) && l.creator@ == creator@
            && l.parent_creator@ == original_creator@ && l.royalty_config.original_creator@
            == original_creator@ && l.royalty_config.rate_bps == clamp_rate(rate_bps)
            && l.royalty_config.rate_bps <= MAX_ROYALTY_BPS
            && l.royalty_config.max_depth == clamp_depth(max_depth),
        forall|c: Seq<char>|
            c != creator@ ==> #[trigger] final(store).config_of(c) == old(store).config_of(c),
        forall|c: Seq<char>|
            c != creator@ ==> #[trigger] final(store).lineage_of(c) == old(store).lineage_of(c),
        forall|c: Seq<char>, t: Seq<char>|
            #[trigger] final(store).royalty_balance(c, t) == old(store).royalty_balance(c, t),
        final(store).payments() == old(store).payments(),
{
    let depth = if max_depth == 0 {
        MAX_DEPTH
    } else if max_depth < MAX_DEPTH {
        max_depth
    } else {
        MAX_DEPTH
    };
    let rate = if rate_bps < MAX_ROYALTY_BPS {
        rate_bps
    } else {
        MAX_ROYALTY_BPS
    };
    let config = make_config(original_creator, rate, depth);
    let ghost c0 = config;
    let ghost cfg0 = store.configs@;
    set_entry(&mut store.configs, creator, config);
    let lineage = ContentLineage {
        creator: owned(creator),
        parent_creator: owned(original_creator),
        royalty_config: make_config(original_creator, rate, depth),
    };
    let ghost l0 = lineage;
    let ghost lin0 = store.lineages@;
    set_entry(&mut store.lineages, creator, lineage);
    proof {
        assert forall|i: int| 0 <= i < store.lineages@.len() implies (#[trigger] store.lineages@[i]).1.royalty_config.max_depth <= MAX_DEPTH
            && store.lineages@[i].1.royalty_config.rate_bps <= MAX_ROYALTY_BPS by {
            if store.lineages@[i].1 != l0 {
                assert(lin0[i] == store.lineages@[i]);
            }
        }
        assert forall|i: int| 0 <= i < store.configs@.len() implies (#[trigger] store.configs@[i]).1.rate_bps <= MAX_ROYALTY_BPS by {
            if store.configs@[i].1 != c0 {
                assert(cfg0[i] == store.configs@[i]);
            }
        }
    }
}

impl RoyaltyStore {
    /// The royalty configuration registered for `creator`.
    pub fn royalty_config(&self, creator: &str) -> (r: Option<&RoyaltyConfig>)
        ensures
            match r {
                Some(c) => self.config_of(creator@) == Some(*c),
                None => self.config_of(creator@) is None,
            },
    {
        match find_key(&self.configs, creator) {
            Some(i) => {
                proof {
                    lemma_lookup_at(self.configs@, creator@, i as int);
                }
                Some(&self.configs[i].1)
            },
            None => {
                proof {
                    lemma_lookup_none(self.configs@, creator@);
                }
                None
            },
        }
    }

    /// The lineage record registered for `creator`.
    pub fn content_lineage(&self, creator: &str) -> (r: Option<&ContentLineage>)
        ensures
            match r {
                Some(l) => self.lineage_of(creator@) == Some(*l),
                None => self.lineage_of(creator@) is None,
            },
    {
        match find_key(&self.lineages, creator) {
            Some(i) => {
                proof {
                    lemma_lookup_at(self.lineages@, creator@, i as int);
                }
                Some(&self.lineages[i].1)
            },
            None => {
                proof {
                    lemma_lookup_none(self.lineages@, creator@);
                }
                None
            },
        }
    }
}

/// Whether `x` fits in an `i128`.
pub open spec fn fits_i128(x: int) -> bool {
    i128::MIN <= x <= i128::MAX
}

/// The royalty walk of a tip to `tipped` in `token`: standing at `current` with
/// `remaining` of the tip left, `depth` levels up, after the payments `paid`.
///
/// When `current` has a lineage record whose depth limit exceeds `depth`, its original
/// creator receives `remaining * rate_bps / 10000` (rounded toward zero) and the walk
/// continues from the original creator with the rest; it stops at the first level with
/// no record, no depth left or no positive royalty. The result is what remains of the
/// tip and every payment made, or `None` when an amount would leave the range of `i128`.
pub open spec fn walk(
    store: RoyaltyStore,
    token: Seq<char>,
    tipped: Seq<char>,
    current: Seq<char>,
    remaining: int,
    depth: int,
    paid: Seq<PaymentModel>,
) -> Option<(int, Seq<PaymentModel>)>
    decreases MAX_DEPTH - depth,
{
    if depth < 0 || depth >= MAX_DEPTH {
        Some((remaining, paid))
    } else {
        match store.lineage_of(current) {
            None => Some((remaining, paid)),
            Some(l) => {
                let cfg = l.royalty_config;
                if depth >= cfg.max_depth {
                    Some((remaining, paid))
                } else {
                    let product = remaining * cfg.rate_bps;
                    if !fits_i128(product) {
                        None
                    } else if product < 10000 {
                        Some((remaining, paid))
                    } else {
                        let royalty = product / 10000;
                        let r = cfg.original_creator@;
                        let balance = store.royalty_balance(r, token) + paid_to(paid, r);
                        if !fits_i128(balance + royalty) {
                            None
                        } else {
                            walk(
                                store,
                                token,
                                tipped,
                                r,
                                remaining - royalty,
                                depth + 1,
                                paid.push(
                                    PaymentModel { recipient: r, creator: tipped, amount: royalty, depth },
                                ),
                            )
                        }
                    }
                }
            }
        }
    }
}

/// How distributing a tip of `amount` to `creator` in `token` ends: what remains for the
/// creator and the royalty payments, or `None` when an amount would leave `i128`.
pub open spec fn distribution(store: RoyaltyStore, creator: Seq<char>, token: Seq<char>, amount: int) -> Option<
    (int, Seq<PaymentModel>),
> {
    walk(store, token, creator, creator, amount, 0, Seq::empty())
}

/// What remains for the creator after distributing a tip (when the distribution is defined).
pub open spec fn net_of(store: RoyaltyStore, creator: Seq<char>, token: Seq<char>, amount: int) -> int {
    distribution(store, creator, token, amount).unwrap().0
}

/// The royalty payments a tip makes (when the distribution is defined).
pub open spec fn payments_of(store: RoyaltyStore, creator: Seq<char>, token: Seq<char>, amount: int) -> Seq<
    PaymentModel,
> {
    distribution(store, creator, token, amount).unwrap().1
}

proof fn lemma_lineage_bound(store: RoyaltyStore, c: Seq<char>)
    requires
        store.wf(),
        store.lineage_of(c) is Some,
    ensures
        store.lineage_of(c)->0.royalty_config.max_depth <= MAX_DEPTH,
        store.lineage_of(c)->0.royalty_config.rate_bps <= MAX_ROYALTY_BPS,
{
    let i = choose|i: int| first_at(store.lineages@, c, i);
    assert(store.lineages@[i].1.royalty_config.max_depth <= MAX_DEPTH);
}

/// Undoes a failed distribution: puts back the saved balances and drops the payments
/// logged after the first `n_events`.
fn roll_back(store: &mut RoyaltyStore, balances: Vec<(String, String, i128)>, n_events: usize)
    requires
        n_events <= old(store).events@.len(),
    ensures
        final(store).configs == old(store).configs,
        final(store).lineages == old(store).lineages,
        final(store).balances@ == balances@,
        final(store).events@ == old(store).events@.subrange(0, n_events as int),
{
    store.balances = balances;
    store.events.truncate(n_events);
}

/// A copy of a list of balances.
fn copy_balances(b: &Vec<(String, String, i128)>) -> (r: Vec<(String, String, i128)>)
    ensures
        r@ == b@,
{
    let mut r: Vec<(String, String, i128)> = Vec::new();
    let n = b.len();
    for i in 0..n
        invariant
            n == b@.len(),
            r@ == b@.take(i as int),
    {
        r.push((b[i].0.clone(), b[i].1.clone(), b[i].2));
        assert(r@ =~= b@.take(i + 1));
    }
    assert(b@.take(n as int) =~= b@);
    r
}

/// Pays the royalties that a tip of `tip_amount` to `creator` in `token_addr` owes up the
/// creator's lineage, crediting each recipient's royalty balance and logging each
/// payment, and returns the amount left for `creator`. When an amount would leave the
/// range of `i128` (where the contract would abort), it returns `None` and leaves the
/// store as it was.
pub fn try_distribute_royalties(
    store: &mut RoyaltyStore,
    creator: &str,
    token_addr: &str,
    tip_amount: i128,
) -> (r: Option<i128>)
    requires
        old(store).wf(),
    ensures
        final(store).wf(),
        r is None <==> distribution(*old(store), creator@, token_addr@, tip_amount as int) is None,
        r is None ==> final(store).payments() == old(store).payments(),
        r is None ==> forall|c: Seq<char>, t: Seq<char>| #[trigger] final(store).royalty_balance(c, t)
            == old(store).royalty_balance(c, t),
        r matches Some(net) ==> net as int == net_of(*old(store), creator@, token_addr@, tip_amount as int),
        r is Some ==> final(store).payments() == old(store).payments() + payments_of(
            *old(store),
            creator@,
            token_addr@,
            tip_amount as int,
        ),
        r is Some ==> forall|c: Seq<char>, t: Seq<char>| #[trigger] final(store).royalty_balance(c, t)
            == old(store).royalty_balance(c, t) + if t == token_addr@ {
            paid_to(payments_of(*old(store), creator@, token_addr@, tip_amount as int), c)
        } else {
            0
        },
        forall|c: Seq<char>| #[trigger] final(store).config_of(c) == old(store).config_of(c),
        forall|c: Seq<char>| #[trigger] final(store).lineage_of(c) == old(store).lineage_of(c),
{
    let ghost s0 = *store;
    let ghost goal = distribution(s0, creator@, token_addr@, tip_amount as int);
    let saved = copy_balances(&store.balances);
    let n_events = store.events.len();
    let mut remaining = tip_amount;
    let mut current = owned(creator);
    let mut depth: u32 = 0;
    let ghost mut paid: Seq<PaymentModel> = Seq::empty();
    assert(s0.payments() + paid =~= s0.payments());
    assert(store.events@.subrange(0, n_events as int) =~= s0.events@);
    loop
        invariant
            s0 == *old(store),
            s0.wf(),
            saved@ == s0.balances@,
            n_events == s0.events@.len(),
            n_events <= store.events@.len(),
            store.events@.subrange(0, n_events as int) == s0.events@,
            goal == distribution(s0, creator@, token_addr@, tip_amount as int),
            goal == walk(s0, token_addr@, creator@, current@, remaining as int, depth as int, paid),
            depth <= MAX_DEPTH,
            store.configs == s0.configs,
            store.lineages == s0.lineages,
            store.payments() == s0.payments() + paid,
            forall|c: Seq<char>, t: Seq<char>| #[trigger] store.royalty_balance(c, t)
                == s0.royalty_balance(c, t) + if t == token_addr@ {
                paid_to(paid, c)
            } else {
                0
            },
        ensures
            goal == Some((remaining as int, paid)),
            store.configs == s0.configs,
            store.lineages == s0.lineages,
            store.payments() == s0.payments() + paid,
            forall|c: Seq<char>, t: Seq<char>| #[trigger] store.royalty_balance(c, t)
                == s0.royalty_balance(c, t) + if t == token_addr@ {
                paid_to(paid, c)
            } else {
                0
            },
        decreases MAX_DEPTH - depth,
    {
        if depth >= MAX_DEPTH {
            break;
        }
        let idx = find_key(&store.lineages, current.as_str());
        let i = match idx {
            Some(i) => i,
            None => {
                proof {
                    lemma_lookup_none(s0.lineages@, current@);
                }
                break;
            },
        };
        proof {
            lemma_lookup_at(s0.lineages@, current@, i as int);
            lemma_lineage_bound(s0, current@);
        }
        let rate = store.lineages[i].1.royalty_config.rate_bps;
        let limit = store.lineages[i].1.royalty_config.max_depth;
        let recipient = store.lineages[i].1.royalty_config.original_creator.clone();
        if depth >= limit {
            break;
        }
        let product = match remaining.checked_mul(rate as i128) {
            Some(p) => p,
            None => {
                proof {
                    let cfg = s0.lineage_of(current@)->0.royalty_config;
                    assert(cfg.rate_bps == rate && cfg.max_depth == limit);
                    assert(!fits_i128(remaining * rate));
                    assert(goal is None);
                }
                roll_back(store, saved, n_events);
                proof {
                    assert(store.balances@ == s0.balances@);
                    assert(store.events@ == s0.events@);
                    assert(store.payments() == s0.payments());
                }
                return None;
            },
        };
        if product < 10000 {
            break;
        }
        let royalty = product / 10000;
        assert(remaining > 0) by (nonlinear_arith)
            requires
                product == remaining * (rate as i128),
                product >= 10000,
                rate >= 0;
        let current_bal = store.balance(recipient.as_str(), token_addr);
        let new_bal = match current_bal.checked_add(royalty) {
            Some(b) => b,
            None => {
                proof {
                    let cfg = s0.lineage_of(current@)->0.royalty_config;
                    assert(cfg.rate_bps == rate && cfg.max_depth == limit);
                    assert(cfg.original_creator@ == recipient@);
                    assert(royalty as int == (remaining * rate) / 10000);
                    assert(current_bal == s0.royalty_balance(recipient@, token_addr@) + paid_to(paid, recipient@));
                    assert(!fits_i128(current_bal + royalty));
                    assert(goal is None);
                }
                roll_back(store, saved, n_events);
                proof {
                    assert(store.balances@ == s0.balances@);
                    assert(store.events@ == s0.events@);
                    assert(store.payments() == s0.payments());
                }
                return None;
            },
        };
        let ghost pre = *store;
        store.set_balance(recipient.as_str(), token_addr, new_bal);
        let ghost mid = *store;
        let event = RoyaltyPayment { recipient: recipient.clone(), creator: owned(creator), amount: royalty, depth };
        let ghost pm = PaymentModel { recipient: recipient@, creator: creator@, amount: royalty as int, depth: depth as int };
        assert(event@ == pm);
        let ghost old_events = store.events@;
        assert(old_events == pre.events@);
        store.events.push(event);
        proof {
            let f = |e: RoyaltyPayment| e@;
            assert(store.events@ == old_events.push(event));
            assert(store.events@.subrange(0, n_events as int) =~= old_events.subrange(0, n_events as int));
            assert(pre.payments() == old_events.map_values(f));
            assert(old_events.push(event).map_values(f) =~= old_events.map_values(f).push(pm));
            assert(store.payments() =~= s0.payments() + paid.push(pm));
            let p2 = paid.push(pm);
            assert(p2.drop_last() =~= paid);
            assert forall|c: Seq<char>, t: Seq<char>| #[trigger] store.royalty_balance(c, t)
                == s0.royalty_balance(c, t) + if t == token_addr@ {
                paid_to(p2, c)
            } else {
                0
            } by {
                assert(paid_to(p2, c) == paid_to(paid, c) + if c == recipient@ { royalty as int } else { 0 });
                assert(pre.royalty_balance(c, t) == s0.royalty_balance(c, t) + if t == token_addr@ {
                    paid_to(paid, c)
                } else {
                    0
                });
                assert(store.royalty_balance(c, t) == mid.royalty_balance(c, t));
                if !(c == recipient@ && t == token_addr@) {
                    assert(mid.royalty_balance(c, t) == pre.royalty_balance(c, t));
                }
            }
            paid = p2;
        }
        remaining = remaining - royalty;
        current = recipient;
        depth = depth + 1;
    }
    Some(remaining)
}

/// Pays the royalties that a tip of `tip_amount` to `creator` in `token_addr` owes up the
/// creator's lineage, crediting each recipient's royalty balance and logging each
/// payment, and returns the amount left for `creator`. The tip must be one whose
/// distribution stays within `i128` (see [`try_distribute_royalties`] for the checked form).
pub fn distribute_royalties(store: &mut RoyaltyStore, creator: &str, token_addr: &str, tip_amount: i128) -> (net: i128)
    requires
        old(store).wf(),
        distribution(*old(store), creator@, token_addr@, tip_amount as int) is Some,
    ensures
        final(store).wf(),
        net as int == net_of(*old(store), creator@, token_addr@, tip_amount as int),
        final(store).payments() == old(store).payments() + payments_of(
            *old(store),
            creator@,
            token_addr@,
            tip_amount as int,
        ),
        forall|c: Seq<char>, t: Seq<char>| #[trigger] final(store).royalty_balance(c, t)
            == old(store).royalty_balance(c, t) + if t == token_addr@ {
            paid_to(payments_of(*old(store), creator@, token_addr@, tip_amount as int), c)
        } else {
            0
        },
        forall|c: Seq<char>| #[trigger] final(store).config_of(c) == old(store).config_of(c),
        forall|c: Seq<char>| #[trigger] final(store).lineage_of(c) == old(store).lineage_of(c),
{
    match try_distribute_royalties(store, creator, token_addr, tip_amount) {
        Some(net) => net,
        None => 0,
    }
}

/// The total of the amounts of `paid`.
pub open spec fn total_paid(paid: Seq<PaymentModel>) -> int
    decreases paid.len(),
{
    if paid.len() == 0 {
        0
    } else {
        total_paid(paid.drop_last()) + paid.last().amount
    }
}

proof fn lemma_walk_facts(
    store: RoyaltyStore,
    token: Seq<char>,
    tipped: Seq<char>,
    current: Seq<char>,
    remaining: int,
    depth: int,
    paid: Seq<PaymentModel>,
)
    requires
        0 <= depth <= MAX_DEPTH,
        paid.len() == depth,
        walk(store, token, tipped, current, remaining, depth, paid) is Some,
    ensures
        ({
            let (net, ps) = walk(store, token, tipped, current, remaining, depth, paid)->0;
            &&& net + total_paid(ps) == remaining + total_paid(paid)
            &&& ps.len() <= MAX_DEPTH
            &&& paid.len() <= ps.len()
            &&& ps.subrange(0, paid.len() as int) == paid
            &&& forall|k: int| paid.len() <= k < ps.len() ==> (#[trigger] ps[k]).amount > 0
                && ps[k].depth == k && ps[k].creator == tipped
            &&& net <= remaining
        }),
    decreases MAX_DEPTH - depth,
{
    let stop = Some((remaining, paid));
    if depth >= MAX_DEPTH || store.lineage_of(current) is None {
        assert(walk(store, token, tipped, current, remaining, depth, paid) == stop);
        assert(paid.subrange(0, paid.len() as int) =~= paid);
    } else {
        let cfg = store.lineage_of(current)->0.royalty_config;
        let product = remaining * cfg.rate_bps;
        if depth >= cfg.max_depth || product < 10000 {
            assert(walk(store, token, tipped, current, remaining, depth, paid) == stop);
            assert(paid.subrange(0, paid.len() as int) =~= paid);
        } else {
            let royalty = product / 10000;
            let r = cfg.original_creator@;
            let pm = PaymentModel { recipient: r, creator: tipped, amount: royalty, depth };
            let p2 = paid.push(pm);
            assert(walk(store, token, tipped, current, remaining, depth, paid) == walk(
                store,
                token,
                tipped,
                r,
                remaining - royalty,
                depth + 1,
                p2,
            ));
            assert(royalty > 0);
            assert(remaining > 0) by (nonlinear_arith)
                requires
                    product == remaining * cfg.rate_bps,
                    product >= 10000,
                    cfg.rate_bps >= 0,
            ;
            lemma_walk_facts(store, token, tipped, r, remaining - royalty, depth + 1, p2);
            let (net, ps) = walk(store, token, tipped, r, remaining - royalty, depth + 1, p2)->0;
            assert(p2.drop_last() =~= paid);
            assert(total_paid(p2) == total_paid(paid) + royalty);
            assert(ps.subrange(0, paid.len() as int) =~= ps.subrange(0, p2.len() as int).drop_last());
            assert(ps[depth] == pm) by {
                assert(ps.subrange(0, p2.len() as int)[depth] == p2[depth]);
            }
        }
    }
}

/// Distributing a tip conserves it: what remains for the creator plus every royalty
/// paid is exactly the tip.
pub proof fn lemma_royalties_conserve_tip(store: RoyaltyStore, creator: Seq<char>, token: Seq<char>, amount: int)
    requires
        distribution(store, creator, token, amount) is Some,
    ensures
        net_of(store, creator, token, amount) + total_paid(payments_of(store, creator, token, amount)) == amount,
{
    lemma_walk_facts(store, token, creator, creator, amount, 0, Seq::empty());
}

/// A tip pays royalties to at most [`MAX_DEPTH`] levels; the payment at position `k`
/// is made `k` levels up, is positive, and is on behalf of the tipped creator; and the
/// creator never keeps more than the tip.
pub proof fn lemma_royalty_payments_shape(store: RoyaltyStore, creator: Seq<char>, token: Seq<char>, amount: int)
    requires
        distribution(store, creator, token, amount) is Some,
    ensures
        payments_of(store, creator, token, amount).len() <= MAX_DEPTH,
        forall|k: int| 0 <= k < payments_of(store, creator, token, amount).len() ==> {
            let p = #[trigger] payments_of(store, creator, token, amount)[k];
            p.amount > 0 && p.depth == k && p.creator == creator
        },
        net_of(store, creator, token, amount) <= amount,
{
    lemma_walk_facts(store, token, creator, creator, amount, 0, Seq::empty());
}

/// A creator with no lineage record keeps the whole tip and pays no royalties.
pub proof fn lemma_no_lineage_no_royalty(store: RoyaltyStore, creator: Seq<char>, token: Seq<char>, amount: int)
    requires
        store.lineage_of(creator) is None,
    ensures
        distribution(store, creator, token, amount) == Some((amount, Seq::<PaymentModel>::empty())),
{
}

/// Whether every registered lineage takes at most `bps` basis points.
pub open spec fn rates_at_most(store: RoyaltyStore, bps: int) -> bool {
    forall|c: Seq<char>| #[trigger] store.lineage_of(c) is Some ==> store.lineage_of(c)->0.royalty_config.rate_bps
        <= bps
}

proof fn lemma_walk_nonnegative(
    store: RoyaltyStore,
    token: Seq<char>,
    tipped: Seq<char>,
    current: Seq<char>,
    remaining: int,
    depth: int,
    paid: Seq<PaymentModel>,
)
    requires
        remaining >= 0,
        rates_at_most(store, 10000),
        walk(store, token, tipped, current, remaining, depth, paid) is Some,
    ensures
        walk(store, token, tipped, current, remaining, depth, paid).unwrap().0 >= 0,
    decreases MAX_DEPTH - depth,
{
    if depth >= 0 && depth < MAX_DEPTH && store.lineage_of(current) is Some {
        let cfg = store.lineage_of(current)->0.royalty_config;
        let product = remaining * cfg.rate_bps;
        if depth < cfg.max_depth && product >= 10000 && fits_i128(product) {
            let royalty = product / 10000;
            assert(royalty <= remaining) by (nonlinear_arith)
                requires
                    product == remaining * cfg.rate_bps,
                    cfg.rate_bps <= 10000,
                    remaining >= 0,
                    royalty == product / 10000,
            ;
            let r = cfg.original_creator@;
            let pm = PaymentModel { recipient: r, creator: tipped, amount: royalty, depth };
            let balance = store.royalty_balance(r, token) + paid_to(paid, r);
            if fits_i128(balance + royalty) {
                lemma_walk_nonnegative(store, token, tipped, r, remaining - royalty, depth + 1, paid.push(pm));
            }
        }
    }
}

/// When no lineage takes more than the whole tip (rates of at most 10000 basis points),
/// the creator of a non-negative tip keeps a non-negative amount.
pub proof fn lemma_royalty_net_nonnegative(store: RoyaltyStore, creator: Seq<char>, token: Seq<char>, amount: int)
    requires
        amount >= 0,
        rates_at_most(store, 10000),
        distribution(store, creator, token, amount) is Some,
    ensures
        net_of(store, creator, token, amount) >= 0,
{
    lemma_walk_nonnegative(store, token, creator, creator, amount, 0, Seq::empty());
}

/// Every registered rate is capped at 30%, so in any store the creator of a non-negative
/// tip keeps a non-negative amount.
pub proof fn lemma_capped_rates_keep_net_nonnegative(
    store: RoyaltyStore,
    creator: Seq<char>,
    token: Seq<char>,
    amount: int,
)
    requires
        store.wf(),
        amount >= 0,
        distribution(store, creator, token, amount) is Some,
    ensures
        rates_at_most(store, MAX_ROYALTY_BPS as int),
        net_of(store, creator, token, amount) >= 0,
{
    assert forall|c: Seq<char>| #[trigger] store.lineage_of(c) is Some implies store.lineage_of(c)->0.royalty_config.rate_bps
        <= MAX_ROYALTY_BPS by {
        lemma_lineage_bound(store, c);
    }
    lemma_royalty_net_nonnegative(store, creator, token, amount);
}

/// The creator whose lineage record a tip's walk reads at level `k`: the tipped creator at
/// level 0, then the recipient of the payment made one level below.
pub open spec fn level_creator(ps: Seq<PaymentModel>, creator: Seq<char>, k: int) -> Seq<char> {
    if k == 0 {
        creator
    } else {
        ps[k - 1].recipient
    }
}

/// Whether the payments of a tip of `amount` to `creator` follow its lineage link by link:
/// payment `k` is made by the lineage record of the level-`k` creator, goes to that record's
/// original creator, lies within that record's own depth limit, and is that record's rate
/// (rounded down) of what was left of the tip before it.
pub open spec fn follows_lineage(store: RoyaltyStore, creator: Seq<char>, amount: int, ps: Seq<PaymentModel>) -> bool {
    forall|k: int|
        0 <= k < ps.len() ==> {
            let l = store.lineage_of(level_creator(ps, creator, k));
            &&& l is Some
            &&& (#[trigger] ps[k]).recipient == l->0.royalty_config.original_creator@
            &&& k < l->0.royalty_config.max_depth
            &&& ps[k].amount == ((amount - total_paid(ps.take(k))) * l->0.royalty_config.rate_bps) / 10000
        }
}

/// Whether the walk of a tip of `amount` to `creator` stopped only where it had to: after
/// [`MAX_DEPTH`] payments, or at a creator with no lineage record, or at a record whose own
/// depth limit is reached, or where that record's royalty on what is left rounds to nothing.
pub open spec fn stops_where_due(store: RoyaltyStore, creator: Seq<char>, amount: int, ps: Seq<PaymentModel>) -> bool {
    let rest = amount - total_paid(ps);
    ||| ps.len() >= MAX_DEPTH
    ||| store.lineage_of(level_creator(ps, creator, ps.len() as int)) is None
    ||| ({
        let l = store.lineage_of(level_creator(ps, creator, ps.len() as int))->0;
        ps.len() >= l.royalty_config.max_depth || rest * l.royalty_config.rate_bps < 10000
    })
}

proof fn lemma_walk_links(
    store: RoyaltyStore,
    token: Seq<char>,
    tipped: Seq<char>,
    current: Seq<char>,
    remaining: int,
    depth: int,
    paid: Seq<PaymentModel>,
    amount: int,
)
    requires
        0 <= depth <= MAX_DEPTH,
        paid.len() == depth,
        remaining == amount - total_paid(paid),
        current == level_creator(paid, tipped, depth),
        follows_lineage(store, tipped, amount, paid),
        walk(store, token, tipped, current, remaining, depth, paid) is Some,
    ensures
        follows_lineage(store, tipped, amount, walk(store, token, tipped, current, remaining, depth, paid).unwrap().1),
        stops_where_due(store, tipped, amount, walk(store, token, tipped, current, remaining, depth, paid).unwrap().1),
    decreases MAX_DEPTH - depth,
{
    if depth >= MAX_DEPTH || store.lineage_of(current) is None {
    } else {
        let cfg = store.lineage_of(current)->0.royalty_config;
        let product = remaining * cfg.rate_bps;
        if depth >= cfg.max_depth || product < 10000 {
        } else {
            let royalty = product / 10000;
            let r = cfg.original_creator@;
            let pm = PaymentModel { recipient: r, creator: tipped, amount: royalty, depth };
            let p2 = paid.push(pm);
            assert(p2.drop_last() =~= paid);
            assert(total_paid(p2) == total_paid(paid) + royalty);
            assert(p2.take(depth) =~= paid);
            assert forall|k: int| 0 <= k < p2.len() implies {
                let l = store.lineage_of(level_creator(p2, tipped, k));
                &&& l is Some
                &&& (#[trigger] p2[k]).recipient == l->0.royalty_config.original_creator@
                &&& k < l->0.royalty_config.max_depth
                &&& p2[k].amount == ((amount - total_paid(p2.take(k))) * l->0.royalty_config.rate_bps) / 10000
            } by {
                if k < depth {
                    assert(p2[k] == paid[k]);
                    assert(p2.take(k) =~= paid.take(k));
                    assert(level_creator(p2, tipped, k) == level_creator(paid, tipped, k));
                    assert(paid[k] == paid[k]);
                } else {
                    assert(k == depth);
                    assert(level_creator(p2, tipped, k) == current);
                }
            }
            assert(level_creator(p2, tipped, depth + 1) == r);
            lemma_walk_links(store, token, tipped, r, remaining - royalty, depth + 1, p2, amount);
        }
    }
}

/// A tip's royalties follow the tipped creator's lineage link by link (see
/// [`follows_lineage`]): each level is paid by the lineage record of the creator reached at
/// that level, to that record's original creator, at that record's rate of what is left,
/// and only while the level is below that record's own depth limit, whatever the limits of
/// the links below it; and the walk goes on until one of the reasons of
/// [`stops_where_due`] holds.
pub proof fn lemma_royalties_follow_lineage(store: RoyaltyStore, creator: Seq<char>, token: Seq<char>, amount: int)
    requires
        distribution(store, creator, token, amount) is Some,
    ensures
        follows_lineage(store, creator, amount, payments_of(store, creator, token, amount)),
        stops_where_due(store, creator, amount, payments_of(store, creator, token, amount)),
{
    assert(total_paid(Seq::<PaymentModel>::empty()) == 0);
    lemma_walk_links(store, token, creator, creator, amount, 0, Seq::empty(), amount);
}

/// A registration keeps a requested depth limit from 1 to [`MAX_DEPTH`] exactly as asked;
/// only 0 (no limit given) or a larger limit is stored as [`MAX_DEPTH`]. Likewise a rate of
/// at most [`MAX_ROYALTY_BPS`] is kept exactly and a larger one is stored as
/// [`MAX_ROYALTY_BPS`]. (These are the values `register_royalty` states it stores.)
pub proof fn lemma_registration_limits(max_depth: u32, rate_bps: u32)
    ensures
        1 <= max_depth <= MAX_DEPTH ==> clamp_depth(max_depth) == max_depth,
        (max_depth == 0 || max_depth > MAX_DEPTH) ==> clamp_depth(max_depth) == MAX_DEPTH,
        rate_bps <= MAX_ROYALTY_BPS ==> clamp_rate(rate_bps) == rate_bps,
        rate_bps > MAX_ROYALTY_BPS ==> clamp_rate(rate_bps) == MAX_ROYALTY_BPS,
{
}

} // verus!
