//! Export of contract state: which RPC endpoint serves a network, how the ledger
//! entries of a response become backup entries, and how an incremental backup is
//! computed against a base snapshot.

use vstd::prelude::*;
use crate::text::{owned, str_eq, join2, join3, i64_text, signed_dec, byte_prefix, prefix_len, replace_all, replace_str};
use crate::json::{
    JsonValue, JsonModel, text_or_empty, str_or_empty, opt_model, items_model, json_member,
    json_object, json_array, json_string, members_model,
};
use crate::crypto::{base64_encode, b64_encode, KeyError, spec_key_from_hex, key_from_hex, random_key};
use vstd::utf8::is_char_boundary;
use vstd::utf8::encode_utf8;
use vstd::string::StringSliceAdditionalSpecFns;
use crate::types::{BackupMetadata, BackupType, ContractState, IncrementalDiff};

verus! {

/// Whether some entry of `s` has key `k`.
pub open spec fn has_key(s: Seq<(String, String)>, k: Seq<char>) -> bool {
    exists|i: int| 0 <= i < s.len() && #[trigger] s[i].0@ == k
}

/// Whether `i` is the last entry of `s` with key `k`.
pub open spec fn last_at(s: Seq<(String, String)>, k: Seq<char>, i: int) -> bool {
    &&& 0 <= i < s.len()
    &&& s[i].0@ == k
    &&& forall|j: int| i < j < s.len() ==> #[trigger] s[j].0@ != k
}

/// The position of the last entry of `s` with key `k`.
pub open spec fn last_pos(s: Seq<(String, String)>, k: Seq<char>) -> int {
    choose|i: int| last_at(s, k, i)
}

/// The map that a list of entries stands for: each key with the value of its last entry,
/// as inserting the entries into a map one after the other leaves it.
pub open spec fn entries_map(s: Seq<(String, String)>) -> Map<Seq<char>, Seq<char>> {
    Map::new(|k: Seq<char>| has_key(s, k), |k: Seq<char>| s[last_pos(s, k)].1@)
}

/// Whether no two entries of `s` share a key.
pub open spec fn unique_keys(s: Seq<(String, String)>) -> bool {
    forall|i: int, j: int| 0 <= i < j < s.len() ==> #[trigger] s[i].0@ != #[trigger] s[j].0@
}

/// Whether a list of entries with distinct keys holds exactly the map `m`.
pub open spec fn lists_map(s: Seq<(String, String)>, m: Map<Seq<char>, Seq<char>>) -> bool {
    &&& unique_keys(s)
    &&& forall|k: Seq<char>| #[trigger] has_key(s, k) <==> m.contains_key(k)
    &&& forall|i: int| 0 <= i < s.len() ==> m[(#[trigger] s[i]).0@] == s[i].1@
}

pub proof fn lemma_last_exists(s: Seq<(String, String)>, k: Seq<char>, m: int)
    requires
        0 <= m < s.len(),
        s[m].0@ == k,
    ensures
        last_at(s, k, last_pos(s, k)),
    decreases s.len() - m,
{
    if exists|j: int| m < j < s.len() && #[trigger] s[j].0@ == k {
        let j = choose|j: int| m < j < s.len() && #[trigger] s[j].0@ == k;
        lemma_last_exists(s, k, j);
    } else {
        assert(last_at(s, k, m));
    }
}

pub proof fn lemma_last_pos(s: Seq<(String, String)>, k: Seq<char>, i: int)
    requires
        last_at(s, k, i),
    ensures
        last_pos(s, k) == i,
        entries_map(s).contains_key(k),
        entries_map(s)[k] == s[i].1@,
{
    lemma_last_exists(s, k, i);
    let p = last_pos(s, k);
    if p < i {
        assert(s[i].0@ != k);
    }
    if i < p {
        assert(s[p].0@ != k);
    }
}

/// A list with distinct keys stands for the map it lists.
pub proof fn lemma_lists_map(s: Seq<(String, String)>, m: Map<Seq<char>, Seq<char>>)
    requires
        lists_map(s, m),
    ensures
        entries_map(s) == m,
{
    assert forall|k: Seq<char>| #[trigger] entries_map(s).contains_key(k) implies entries_map(s)[k] == m[k] by {
        let i = choose|i: int| 0 <= i < s.len() && #[trigger] s[i].0@ == k;
        assert(last_at(s, k, i));
        lemma_last_pos(s, k, i);
    }
    assert(entries_map(s) =~= m);
}

/// The position of the last entry with key `k`.
fn last_index_of(s: &Vec<(String, String)>, k: &str) -> (r: Option<usize>)
    ensures
        match r {
            Some(i) => last_at(s@, k@, i as int),
            None => !has_key(s@, k@),
        },
{
    let n = s.len();
    let mut i = n;
    while i > 0
        invariant
            n == s@.len(),
            i <= n,
            forall|j: int| i <= j < n ==> #[trigger] s@[j].0@ != k@,
        decreases i,
    {
        if str_eq(s[i - 1].0.as_str(), k) {
            return Some(i - 1);
        }
        i = i - 1;
    }
    None
}

/// Whether entry `i` is the last one with its key.
fn is_last(s: &Vec<(String, String)>, i: usize) -> (b: bool)
    requires
        i < s@.len(),
    ensures
        b == last_at(s@, s@[i as int].0@, i as int),
{
    let n = s.len();
    let mut j = i + 1;
    while j < n
        invariant
            i < j <= n,
            n == s@.len(),
            forall|m: int| i < m < j ==> #[trigger] s@[m].0@ != s@[i as int].0@,
        decreases n - j,
    {
        if str_eq(s[j].0.as_str(), s[i].0.as_str()) {
            return false;
        }
        j = j + 1;
    }
    true
}

/// The entries of `a` followed by those of `b`.
fn concat_entries(a: &Vec<(String, String)>, b: &Vec<(String, String)>) -> (r: Vec<(String, String)>)
    ensures
        r@ == a@ + b@,
{
    let mut r: Vec<(String, String)> = Vec::new();
    for i in 0..a.len()
        invariant
            r@ == a@.take(i as int),
    {
        r.push((a[i].0.clone(), a[i].1.clone()));
        assert(r@ =~= a@.take(i + 1));
    }
    assert(r@ =~= a@);
    for i in 0..b.len()
        invariant
            r@ == a@ + b@.take(i as int),
    {
        r.push((b[i].0.clone(), b[i].1.clone()));
        assert(r@ =~= a@ + b@.take(i + 1));
    }
    assert(r@ =~= a@ + b@);
    r
}

/// The entries that are current but absent from the base.
pub open spec fn added_map(current: Map<Seq<char>, Seq<char>>, base: Map<Seq<char>, Seq<char>>) -> Map<Seq<char>, Seq<char>> {
    Map::new(|k: Seq<char>| current.contains_key(k) && !base.contains_key(k), |k: Seq<char>| current[k])
}

/// The entries present in both whose current value differs, with the current value.
pub open spec fn modified_map(current: Map<Seq<char>, Seq<char>>, base: Map<Seq<char>, Seq<char>>) -> Map<Seq<char>, Seq<char>> {
    Map::new(
        |k: Seq<char>| current.contains_key(k) && base.contains_key(k) && current[k] != base[k],
        |k: Seq<char>| current[k],
    )
}

/// The state a diff describes when applied to a base: the base without the removed keys,
/// then the added and modified entries written over it.
pub open spec fn apply_diff(
    base: Map<Seq<char>, Seq<char>>,
    added: Map<Seq<char>, Seq<char>>,
    modified: Map<Seq<char>, Seq<char>>,
    removed: Set<Seq<char>>,
) -> Map<Seq<char>, Seq<char>> {
    base.remove_keys(removed).union_prefer_right(added).union_prefer_right(modified)
}

/// Applying the diff of `current` against `base` to `base` gives `current` back.
pub proof fn lemma_diff_restores_current(current: Map<Seq<char>, Seq<char>>, base: Map<Seq<char>, Seq<char>>)
    ensures
        apply_diff(
            base,
            added_map(current, base),
            modified_map(current, base),
            base.dom().difference(current.dom()),
        ) == current,
{
    let r = apply_diff(
        base,
        added_map(current, base),
        modified_map(current, base),
        base.dom().difference(current.dom()),
    );
    assert(r =~= current);
}

/// The entries of a list with one entry per key: each key's last value, in the order of
/// those last entries (as collecting the list into a map keeps it).
pub fn dedup_entries(s: &Vec<(String, String)>) -> (r: Vec<(String, String)>)
    ensures
        lists_map(r@, entries_map(s@)),
{
    let ghost c = entries_map(s@);
    let mut out: Vec<(String, String)> = Vec::new();
    let n = s.len();
    proof {
        assert forall|kk: Seq<char>| c.contains_key(kk) implies #[trigger] last_pos(s@, kk) >= 0 by {
            let w = choose|w: int| 0 <= w < s@.len() && #[trigger] s@[w].0@ == kk;
            lemma_last_exists(s@, kk, w);
        }
    }
    for i in 0..n
        invariant
            n == s@.len(),
            c == entries_map(s@),
            unique_keys(out@),
            forall|k: Seq<char>| #[trigger] has_key(out@, k) <==> (c.contains_key(k) && last_pos(s@, k) < i),
            forall|j: int| 0 <= j < out@.len() ==> c[(#[trigger] out@[j]).0@] == out@[j].1@,
    {
        let ghost k = s@[i as int].0@;
        let ghost o0 = out@;
        if is_last(s, i) {
            proof {
                lemma_last_pos(s@, k, i as int);
            }
            out.push((s[i].0.clone(), s[i].1.clone()));
            proof {
                assert forall|kk: Seq<char>| #[trigger] has_key(out@, kk) <==> (c.contains_key(kk) && last_pos(s@, kk) < i + 1) by {
                    if kk == k {
                        assert(out@[out@.len() - 1].0@ == k);
                    } else {
                        if has_key(out@, kk) {
                            let j = choose|j: int| 0 <= j < out@.len() && #[trigger] out@[j].0@ == kk;
                            assert(o0[j].0@ == kk);
                        }
                        if has_key(o0, kk) {
                            let j = choose|j: int| 0 <= j < o0.len() && #[trigger] o0[j].0@ == kk;
                            assert(out@[j].0@ == kk);
                        }
                        if c.contains_key(kk) {
                            let w = choose|w: int| 0 <= w < s@.len() && #[trigger] s@[w].0@ == kk;
                            lemma_last_exists(s@, kk, w);
                        }
                    }
                }
                assert forall|x: int, y: int| 0 <= x < y < out@.len() implies #[trigger] out@[x].0@ != #[trigger] out@[y].0@ by {
                    if y == out@.len() - 1 {
                        assert(has_key(o0, o0[x].0@));
                    }
                }
            }
        }
        proof {
            assert forall|kk: Seq<char>| #[trigger] has_key(out@, kk) <==> (c.contains_key(kk) && last_pos(s@, kk) < i + 1) by {
                if c.contains_key(kk) {
                    let w = choose|w: int| 0 <= w < s@.len() && #[trigger] s@[w].0@ == kk;
                    lemma_last_exists(s@, kk, w);
                    if last_pos(s@, kk) == i {
                        lemma_last_pos(s@, k, i as int);
                    }
                }
            }
        }
    }
    proof {
        assert forall|kk: Seq<char>| #[trigger] has_key(out@, kk) <==> c.contains_key(kk) by {
            if c.contains_key(kk) {
                let w = choose|w: int| 0 <= w < s@.len() && #[trigger] s@[w].0@ == kk;
                lemma_last_exists(s@, kk, w);
            }
        }
    }
    out
}

/// All entries of a snapshot: instance entries, then persistent ones.
pub open spec fn state_map(state: ContractState) -> Map<Seq<char>, Seq<char>> {
    entries_map(state.instance_entries@ + state.persistent_entries@)
}

/// Whether `s` lists distinct names.
pub open spec fn unique_names(s: Seq<String>) -> bool {
    forall|i: int, j: int| 0 <= i < j < s.len() ==> #[trigger] s[i]@ != #[trigger] s[j]@
}

/// Whether `s` lists `k`.
pub open spec fn has_name(s: Seq<String>, k: Seq<char>) -> bool {
    exists|i: int| 0 <= i < s.len() && #[trigger] s[i]@ == k
}

/// Computes the incremental diff of the current entries (instance entries, then
/// persistent ones, a later entry overriding an earlier one with the same key) against
/// a base snapshot: the entries the base lacks, the entries whose value changed, and the
/// keys the current state no longer holds. Each list names every key at most once.
pub fn compute_diff(
    base: &ContractState,
    current_instance: &Vec<(String, String)>,
    current_persistent: &Vec<(String, String)>,
) -> (r: (Vec<(String, String)>, Vec<(String, String)>, Vec<String>))
    ensures
        lists_map(r.0@, added_map(entries_map(current_instance@ + current_persistent@), state_map(*base))),
        lists_map(r.1@, modified_map(entries_map(current_instance@ + current_persistent@), state_map(*base))),
        unique_names(r.2@),
        forall|k: Seq<char>| #[trigger] has_name(r.2@, k) <==> state_map(*base).contains_key(k)
            && !entries_map(current_instance@ + current_persistent@).contains_key(k),
{
    let cur = concat_entries(current_instance, current_persistent);
    let all_base = concat_entries(&base.instance_entries, &base.persistent_entries);
    let ghost c = entries_map(cur@);
    let ghost b = entries_map(all_base@);
    let ghost am = added_map(c, b);
    let ghost mm = modified_map(c, b);
    let mut added: Vec<(String, String)> = Vec::new();
    let mut modified: Vec<(String, String)> = Vec::new();
    let n = cur.len();
    proof {
        assert forall|kk: Seq<char>| c.contains_key(kk) implies #[trigger] last_pos(cur@, kk) >= 0 by {
            let w = choose|w: int| 0 <= w < cur@.len() && #[trigger] cur@[w].0@ == kk;
            lemma_last_exists(cur@, kk, w);
        }
    }
    for i in 0..n
        invariant
            n == cur@.len(),
            c == entries_map(cur@),
            b == entries_map(all_base@),
            am == added_map(c, b),
            mm == modified_map(c, b),
            unique_keys(added@),
            unique_keys(modified@),
            forall|k: Seq<char>| #[trigger] has_key(added@, k) <==> (am.contains_key(k) && last_pos(cur@, k) < i),
            forall|k: Seq<char>| #[trigger] has_key(modified@, k) <==> (mm.contains_key(k) && last_pos(cur@, k) < i),
            forall|j: int| 0 <= j < added@.len() ==> am[(#[trigger] added@[j]).0@] == added@[j].1@,
            forall|j: int| 0 <= j < modified@.len() ==> mm[(#[trigger] modified@[j]).0@] == modified@[j].1@,
    {
        let ghost k = cur@[i as int].0@;
        let last = is_last(&cur, i);
        let ghost a0 = added@;
        let ghost m0 = modified@;
        if last {
            proof {
                lemma_last_pos(cur@, k, i as int);
            }
            match last_index_of(&all_base, cur[i].0.as_str()) {
                None => {
                    added.push((cur[i].0.clone(), cur[i].1.clone()));
                    proof {
                        assert(!b.contains_key(k));
                        assert forall|kk: Seq<char>| #[trigger] has_key(added@, kk) <==> (am.contains_key(kk) && last_pos(cur@, kk) < i + 1) by {
                            if kk == k {
                                assert(added@[added@.len() - 1].0@ == k);
                            } else {
                                if has_key(added@, kk) {
                                    let j = choose|j: int| 0 <= j < added@.len() && #[trigger] added@[j].0@ == kk;
                                    assert(a0[j].0@ == kk);
                                }
                                if has_key(a0, kk) {
                                    let j = choose|j: int| 0 <= j < a0.len() && #[trigger] a0[j].0@ == kk;
                                    assert(added@[j].0@ == kk);
                                }
                                if am.contains_key(kk) {
                                    let w = choose|w: int| 0 <= w < cur@.len() && #[trigger] cur@[w].0@ == kk;
                                    lemma_last_exists(cur@, kk, w);
                                }
                            }
                        }
                        assert forall|x: int, y: int| 0 <= x < y < added@.len() implies #[trigger] added@[x].0@ != #[trigger] added@[y].0@ by {
                            if y == added@.len() - 1 {
                                assert(has_key(a0, a0[x].0@));
                            }
                        }
                    }
                },
                Some(bi) => {
                    proof {
                        lemma_last_pos(all_base@, k, bi as int);
                    }
                    if !str_eq(all_base[bi].1.as_str(), cur[i].1.as_str()) {
                        modified.push((cur[i].0.clone(), cur[i].1.clone()));
                        proof {
                            assert forall|kk: Seq<char>| #[trigger] has_key(modified@, kk) <==> (mm.contains_key(kk) && last_pos(cur@, kk) < i + 1) by {
                                if kk == k {
                                    assert(modified@[modified@.len() - 1].0@ == k);
                                } else {
                                    if has_key(modified@, kk) {
                                        let j = choose|j: int| 0 <= j < modified@.len() && #[trigger] modified@[j].0@ == kk;
                                        assert(m0[j].0@ == kk);
                                    }
                                    if has_key(m0, kk) {
                                        let j = choose|j: int| 0 <= j < m0.len() && #[trigger] m0[j].0@ == kk;
                                        assert(modified@[j].0@ == kk);
                                    }
                                    if mm.contains_key(kk) {
                                        let w = choose|w: int| 0 <= w < cur@.len() && #[trigger] cur@[w].0@ == kk;
                                        lemma_last_exists(cur@, kk, w);
                                    }
                                }
                            }
                            assert forall|x: int, y: int| 0 <= x < y < modified@.len() implies #[trigger] modified@[x].0@ != #[trigger] modified@[y].0@ by {
                                if y == modified@.len() - 1 {
                                    assert(has_key(m0, m0[x].0@));
                                }
                            }
                        }
                    }
                },
            }
        }
        proof {
            assert forall|kk: Seq<char>| #[trigger] has_key(added@, kk) <==> (am.contains_key(kk) && last_pos(cur@, kk) < i + 1) by {
                if am.contains_key(kk) {
                    let w = choose|w: int| 0 <= w < cur@.len() && #[trigger] cur@[w].0@ == kk;
                    lemma_last_exists(cur@, kk, w);
                    if last_pos(cur@, kk) == i {
                        lemma_last_pos(cur@, k, i as int);
                    }
                }
            }
            assert forall|kk: Seq<char>| #[trigger] has_key(modified@, kk) <==> (mm.contains_key(kk) && last_pos(cur@, kk) < i + 1) by {
                if mm.contains_key(kk) {
                    let w = choose|w: int| 0 <= w < cur@.len() && #[trigger] cur@[w].0@ == kk;
                    lemma_last_exists(cur@, kk, w);
                    if last_pos(cur@, kk) == i {
                        lemma_last_pos(cur@, k, i as int);
                    }
                }
            }
        }
    }
    proof {
        assert forall|kk: Seq<char>| #[trigger] has_key(added@, kk) <==> am.contains_key(kk) by {
            if am.contains_key(kk) {
                let w = choose|w: int| 0 <= w < cur@.len() && #[trigger] cur@[w].0@ == kk;
                lemma_last_exists(cur@, kk, w);
            }
        }
        assert forall|kk: Seq<char>| #[trigger] has_key(modified@, kk) <==> mm.contains_key(kk) by {
            if mm.contains_key(kk) {
                let w = choose|w: int| 0 <= w < cur@.len() && #[trigger] cur@[w].0@ == kk;
                lemma_last_exists(cur@, kk, w);
            }
        }
    }
    let mut removed: Vec<String> = Vec::new();
    let nb = all_base.len();
    proof {
        assert forall|kk: Seq<char>| b.contains_key(kk) implies #[trigger] last_pos(all_base@, kk) >= 0 by {
            let w = choose|w: int| 0 <= w < all_base@.len() && #[trigger] all_base@[w].0@ == kk;
            lemma_last_exists(all_base@, kk, w);
        }
    }
    for i in 0..nb
        invariant
            nb == all_base@.len(),
            c == entries_map(cur@),
            b == entries_map(all_base@),
            unique_names(removed@),
            forall|k: Seq<char>| #[trigger] has_name(removed@, k) <==> (b.contains_key(k) && !c.contains_key(k)
                && last_pos(all_base@, k) < i),
    {
        let ghost k = all_base@[i as int].0@;
        let ghost r0 = removed@;
        if is_last(&all_base, i) {
            proof {
                lemma_last_pos(all_base@, k, i as int);
            }
            if last_index_of(&cur, all_base[i].0.as_str()).is_none() {
                removed.push(all_base[i].0.clone());
                proof {
                    assert forall|kk: Seq<char>| #[trigger] has_name(removed@, kk) <==> (b.contains_key(kk) && !c.contains_key(kk)
                        && last_pos(all_base@, kk) < i + 1) by {
                        if kk == k {
                            assert(removed@[removed@.len() - 1]@ == k);
                        } else {
                            if has_name(removed@, kk) {
                                let j = choose|j: int| 0 <= j < removed@.len() && #[trigger] removed@[j]@ == kk;
                                assert(r0[j]@ == kk);
                            }
                            if has_name(r0, kk) {
                                let j = choose|j: int| 0 <= j < r0.len() && #[trigger] r0[j]@ == kk;
                                assert(removed@[j]@ == kk);
                            }
                            if b.contains_key(kk) {
                                let w = choose|w: int| 0 <= w < all_base@.len() && #[trigger] all_base@[w].0@ == kk;
                                lemma_last_exists(all_base@, kk, w);
                            }
                        }
                    }
                    assert forall|x: int, y: int| 0 <= x < y < removed@.len() implies #[trigger] removed@[x]@ != #[trigger] removed@[y]@ by {
                        if y == removed@.len() - 1 {
                            assert(has_name(r0, r0[x]@));
                        }
                    }
                }
            }
        }
        proof {
            assert forall|kk: Seq<char>| #[trigger] has_name(removed@, kk) <==> (b.contains_key(kk) && !c.contains_key(kk)
                && last_pos(all_base@, kk) < i + 1) by {
                if b.contains_key(kk) {
                    let w = choose|w: int| 0 <= w < all_base@.len() && #[trigger] all_base@[w].0@ == kk;
                    lemma_last_exists(all_base@, kk, w);
                    if last_pos(all_base@, kk) == i {
                        lemma_last_pos(all_base@, k, i as int);
                    }
                }
            }
        }
    }
    proof {
        assert forall|kk: Seq<char>| #[trigger] has_name(removed@, kk) <==> (b.contains_key(kk) && !c.contains_key(kk)) by {
            if b.contains_key(kk) {
                let w = choose|w: int| 0 <= w < all_base@.len() && #[trigger] all_base@[w].0@ == kk;
                lemma_last_exists(all_base@, kk, w);
            }
        }
    }
    (added, modified, removed)
}

/// A snapshot (schema version 1) of `contract_id` on `network` at a ledger, holding the
/// given instance and persistent entries (a later entry for a key overriding an earlier
/// one, each key listed once) and the metadata.
pub fn snapshot(
    contract_id: String,
    network: String,
    ledger_sequence: u64,
    ledger_timestamp: u64,
    instance: &Vec<(String, String)>,
    persistent: &Vec<(String, String)>,
    metadata: BackupMetadata,
) -> (r: ContractState)
    ensures
        r.wf(),
        r.schema_version == 1,
        r.contract_id@ == contract_id@,
        r.network@ == network@,
        r.ledger_sequence == ledger_sequence,
        r.ledger_timestamp == ledger_timestamp,
        lists_map(r.instance_entries@, entries_map(instance@)),
        lists_map(r.persistent_entries@, entries_map(persistent@)),
        r.metadata == metadata,
{
    ContractState {
        schema_version: 1,
        contract_id,
        network,
        ledger_sequence,
        ledger_timestamp,
        instance_entries: dedup_entries(instance),
        persistent_entries: dedup_entries(persistent),
        metadata,
    }
}

/// The incremental backup (schema version 1) of `contract_id` against the snapshot `base`
/// (named `base_backup_id`): the entries the base lacks, those whose value changed, and
/// the keys no longer held (see [`compute_diff`]), with the metadata.
pub fn incremental_diff(
    contract_id: String,
    base_backup_id: String,
    ledger_sequence: u64,
    base: &ContractState,
    current_instance: &Vec<(String, String)>,
    current_persistent: &Vec<(String, String)>,
    metadata: BackupMetadata,
) -> (r: IncrementalDiff)
    ensures
        r.wf(),
        r.schema_version == 1,
        r.contract_id@ == contract_id@,
        r.base_backup_id@ == base_backup_id@,
        r.ledger_sequence == ledger_sequence,
        lists_map(r.added@, added_map(entries_map(current_instance@ + current_persistent@), state_map(*base))),
        lists_map(r.modified@, modified_map(entries_map(current_instance@ + current_persistent@), state_map(*base))),
        forall|k: Seq<char>| #[trigger] has_name(r.removed@, k) <==> state_map(*base).contains_key(k)
            && !entries_map(current_instance@ + current_persistent@).contains_key(k),
        r.metadata == metadata,
{
    let (added, modified, removed) = compute_diff(base, current_instance, current_persistent);
    IncrementalDiff { schema_version: 1, contract_id, base_backup_id, ledger_sequence, added, modified, removed, metadata }
}

/// The lists [`compute_diff`] returns describe the current entries: written over the
/// base snapshot without the removed keys, the added and modified entries give back
/// exactly the current entries.
pub proof fn lemma_diff_outputs_restore(
    base: Map<Seq<char>, Seq<char>>,
    current: Map<Seq<char>, Seq<char>>,
    added: Seq<(String, String)>,
    modified: Seq<(String, String)>,
    removed: Seq<String>,
)
    requires
        lists_map(added, added_map(current, base)),
        lists_map(modified, modified_map(current, base)),
        forall|k: Seq<char>| #[trigger] has_name(removed, k) <==> base.contains_key(k) && !current.contains_key(k),
    ensures
        apply_diff(base, entries_map(added), entries_map(modified), Set::new(|k: Seq<char>| has_name(removed, k)))
            == current,
{
    lemma_lists_map(added, added_map(current, base));
    lemma_lists_map(modified, modified_map(current, base));
    assert(Set::new(|k: Seq<char>| has_name(removed, k)) =~= base.dom().difference(current.dom()));
    lemma_diff_restores_current(current, base);
}

/// The RPC endpoint of a network: mainnet and futurenet by name, testnet for any other.
pub open spec fn spec_rpc_url_for(network: Seq<char>) -> Seq<char> {
    if network == "mainnet"@ {
        "https://mainnet.sorobanrpc.com"@
    } else if network == "futurenet"@ {
        "https://rpc-futurenet.stellar.org"@
    } else {
        "https://soroban-testnet.stellar.org"@
    }
}

/// The RPC endpoint of a network: mainnet and futurenet by name, testnet for any other.
pub fn rpc_url_for(network: &str) -> (r: &'static str)
    ensures
        r@ == spec_rpc_url_for(network@),
{
    if str_eq(network, "mainnet") {
        "https://mainnet.sorobanrpc.com"
    } else if str_eq(network, "futurenet") {
        "https://rpc-futurenet.stellar.org"
    } else {
        "https://soroban-testnet.stellar.org"
    }
}

/// The key under which a contract's instance entry is requested: the base64 text of
/// `instance:` followed by the contract id.
pub fn build_contract_instance_key(contract_id: &str) -> (r: String)
    requires
        encode_utf8("instance:"@ + contract_id@).len() <= 3 * (usize::MAX / 4),
    ensures
        encode_utf8(r@) == base64_encode(encode_utf8("instance:"@ + contract_id@)),
{
    let placeholder = join2("instance:", contract_id);
    b64_encode(placeholder.as_str().as_bytes())
}

/// The entries listed under `result.entries` of an RPC response: each entry's `key` text
/// with the text of its `value_field` member (empty where either is not a string).
pub open spec fn response_entries(resp: JsonModel, value_field: Seq<char>) -> Seq<(Seq<char>, Seq<char>)> {
    match resp.get("result"@) {
        Some(result) => match result.get("entries"@) {
            Some(JsonModel::Array(es)) => Seq::new(
                es.len(),
                |i: int| (text_or_empty(es[i].get("key"@)), text_or_empty(es[i].get(value_field))),
            ),
            _ => Seq::empty(),
        },
        None => Seq::empty(),
    }
}

/// The views of a list of entries.
pub open spec fn entries_view(s: Seq<(String, String)>) -> Seq<(Seq<char>, Seq<char>)> {
    s.map_values(|e: (String, String)| (e.0@, e.1@))
}

/// The entries listed under `result.entries` of an RPC response (see [`response_entries`]).
pub fn ledger_entries_from(resp: &JsonValue, value_field: &str) -> (r: Vec<(String, String)>)
    ensures
        entries_view(r@) == response_entries(resp@, value_field@),
{
    let mut out: Vec<(String, String)> = Vec::new();
    let result = match resp.get("result") {
        Some(x) => x,
        None => {
            assert(entries_view(out@) =~= Seq::empty());
            return out;
        },
    };
    let entries = match result.get("entries") {
        Some(e) => e,
        None => {
            assert(entries_view(out@) =~= Seq::empty());
            return out;
        },
    };
    let items = match entries.as_array() {
        Some(items) => items,
        None => {
            assert(entries_view(out@) =~= Seq::empty());
            return out;
        },
    };
    let ghost es = items_model(items@);
    let n = items.len();
    for i in 0..n
        invariant
            n == items@.len(),
            es == items_model(items@),
            entries_view(out@) == Seq::new(
                i as nat,
                |j: int| (text_or_empty(es[j].get("key"@)), text_or_empty(es[j].get(value_field@))),
            ),
    {
        let k = str_or_empty(items[i].get("key"));
        let v = str_or_empty(items[i].get(value_field));
        let ghost before = entries_view(out@);
        assert(es[i as int] == items@[i as int]@);
        out.push((k, v));
        assert(entries_view(out@) =~= before.push((k@, v@)));
        assert(entries_view(out@) =~= Seq::new(
            (i + 1) as nat,
            |j: int| (text_or_empty(es[j].get("key"@)), text_or_empty(es[j].get(value_field@))),
        ));
    }
    out
}

/// The unsigned number under `result.<field>` of an RPC response, zero when there is none.
pub open spec fn response_u64(resp: JsonModel, field: Seq<char>) -> u64 {
    match resp.get("result"@) {
        Some(result) => match result.get(field) {
            Some(x) => match x.as_u64() {
                Some(n) => n,
                None => 0,
            },
            None => 0,
        },
        None => 0,
    }
}

/// The unsigned number under `result.<field>` of an RPC response, zero when there is none.
pub fn result_u64(resp: &JsonValue, field: &str) -> (r: u64)
    ensures
        r == response_u64(resp@, field@),
{
    match resp.get("result") {
        Some(result) => match result.get(field) {
            Some(x) => match x.as_u64() {
                Some(n) => n,
                None => 0,
            },
            None => 0,
        },
        None => 0,
    }
}

/// The JSON-RPC request for a contract's instance entry.
pub fn ledger_entries_request(instance_key: &str) -> (r: JsonValue)
    ensures
        r@ == JsonModel::Object(seq![
            ("id"@, JsonModel::Number(seq!['1'])),
            ("jsonrpc"@, JsonModel::Str("2.0"@)),
            ("method"@, JsonModel::Str("getLedgerEntries"@)),
            ("params"@, JsonModel::Object(seq![("keys"@, JsonModel::Array(seq![JsonModel::Str(instance_key@)]))])),
        ]),
{
    let mut keys: Vec<JsonValue> = Vec::new();
    keys.push(json_string(instance_key));
    let keys_v = json_array(keys);
    let mut params: Vec<(String, JsonValue)> = Vec::new();
    params.push(json_member("keys", keys_v));
    let params_v = json_object(params);
    let mut body: Vec<(String, JsonValue)> = Vec::new();
    body.push(json_member("id", crate::json::json_u64(1)));
    body.push(json_member("jsonrpc", json_string("2.0")));
    body.push(json_member("method", json_string("getLedgerEntries")));
    body.push(json_member("params", params_v));
    proof {
        assert(crate::text::dec(1) =~= seq!['1']);
        assert(items_model(keys@) =~= seq![JsonModel::Str(instance_key@)]);
        assert(members_model(params@) =~= seq![("keys"@, JsonModel::Array(seq![JsonModel::Str(instance_key@)]))]);
        assert(members_model(body@) =~= seq![
            ("id"@, JsonModel::Number(seq!['1'])),
            ("jsonrpc"@, JsonModel::Str("2.0"@)),
            ("method"@, JsonModel::Str("getLedgerEntries"@)),
            ("params"@, JsonModel::Object(seq![("keys"@, JsonModel::Array(seq![JsonModel::Str(instance_key@)]))])),
        ]);
    }
    json_object(body)
}

/// The JSON-RPC request for a contract's persistent data entries.
pub fn contract_data_request(contract_id: &str) -> (r: JsonValue)
    ensures
        r@ == JsonModel::Object(seq![
            ("id"@, JsonModel::Number(seq!['2'])),
            ("jsonrpc"@, JsonModel::Str("2.0"@)),
            ("method"@, JsonModel::Str("getContractData"@)),
            ("params"@, JsonModel::Object(seq![
                ("contract"@, JsonModel::Str(contract_id@)),
                ("durability"@, JsonModel::Str("persistent"@)),
            ])),
        ]),
{
    let mut params: Vec<(String, JsonValue)> = Vec::new();
    params.push(json_member("contract", json_string(contract_id)));
    params.push(json_member("durability", json_string("persistent")));
    let params_v = json_object(params);
    let mut body: Vec<(String, JsonValue)> = Vec::new();
    body.push(json_member("id", crate::json::json_u64(2)));
    body.push(json_member("jsonrpc", json_string("2.0")));
    body.push(json_member("method", json_string("getContractData")));
    body.push(json_member("params", params_v));
    proof {
        assert(crate::text::dec(2) =~= seq!['2']);
        assert(members_model(params@) =~= seq![
            ("contract"@, JsonModel::Str(contract_id@)),
            ("durability"@, JsonModel::Str("persistent"@)),
        ]);
        assert(members_model(body@) =~= seq![
            ("id"@, JsonModel::Number(seq!['2'])),
            ("jsonrpc"@, JsonModel::Str("2.0"@)),
            ("method"@, JsonModel::Str("getContractData"@)),
            ("params"@, JsonModel::Object(seq![
                ("contract"@, JsonModel::Str(contract_id@)),
                ("durability"@, JsonModel::Str("persistent"@)),
            ])),
        ]);
    }
    json_object(body)
}

/// The encryption key for an export: the given hexadecimal key, or a fresh random one
/// when none is given (the flag tells the caller to show it).
pub fn resolve_key(opt: &Option<String>) -> (r: Result<([u8; 32], bool), KeyError>)
    ensures
        match opt {
            Some(text) => match r {
                Ok((k, generated)) => !generated && spec_key_from_hex(text@) == Ok::<Seq<u8>, KeyError>(k@),
                Err(e) => spec_key_from_hex(text@) == Err::<Seq<u8>, KeyError>(e),
            },
            None => r matches Ok((_, generated)) && generated,
        },
{
    match opt {
        Some(text) => match key_from_hex(text.as_str()) {
            Ok(k) => Ok((k, false)),
            Err(e) => Err(e),
        },
        None => Ok((random_key(), true)),
    }
}

/// The id of a backup of `contract` taken at `timestamp`: `backup_`, the first eight
/// bytes of the contract id (all of it when shorter), `_`, and the timestamp.
pub fn backup_id_for(contract: &str, timestamp: i64) -> (r: String)
    requires
        contract.spec_bytes().len() <= usize::MAX,
        is_char_boundary(contract.spec_bytes(), prefix_len(contract, 8)),
    ensures
        exists|p: Seq<char>|
            encode_utf8(p) == contract.spec_bytes().take(prefix_len(contract, 8)) && r@ == "backup_"@ + p
                + "_"@ + signed_dec(timestamp as int),
{
    let prefix = byte_prefix(contract, 8);
    let ts = i64_text(timestamp);
    let head = join3("backup_", prefix.as_str(), "_");
    join2(head.as_str(), ts.as_str())
}

/// The version of the export tool recorded in every backup.
pub const TOOL_VERSION: &'static str = "0.1.0";

/// The metadata of a new export, before its checksum is known: created at `created_at`,
/// by this tool version, incremental (against `base_backup_id`) or full, possibly
/// encrypted, with an empty checksum.
pub fn export_metadata(
    created_at: String,
    incremental: bool,
    base_backup_id: Option<String>,
    backup_id: String,
    encrypted: bool,
) -> (m: BackupMetadata)
    ensures
        m.created_at@ == created_at@,
        m.tool_version@ == TOOL_VERSION@,
        m.checksum@ == Seq::<char>::empty(),
        m.backup_type == (if incremental {
            BackupType::Incremental
        } else {
            BackupType::Full
        }),
        m.base_backup_id == base_backup_id,
        m.backup_id@ == backup_id@,
        m.encrypted == encrypted,
{
    BackupMetadata {
        created_at,
        tool_version: owned(TOOL_VERSION),
        checksum: String::new(),
        backup_type: if incremental {
            BackupType::Incremental
        } else {
            BackupType::Full
        },
        base_backup_id,
        backup_id,
        encrypted,
    }
}

/// The text of an incremental backup with its checksum filled in: every empty
/// `"checksum": ""` member of the serialised diff becomes `"checksum": "<checksum>"`.
pub fn embed_checksum(json: &str, checksum: &str) -> (r: String)
    ensures
        r@ == replace_all(json@, "\"checksum\": \"\""@, "\"checksum\": \""@ + checksum@ + "\""@),
{
    let filled = join3("\"checksum\": \"", checksum, "\"");
    proof {
        reveal_strlit("\"checksum\": \"\"");
    }
    replace_str(json, "\"checksum\": \"\"", filled.as_str())
}

} // verus!
