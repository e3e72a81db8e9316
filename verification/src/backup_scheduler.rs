//! Periodic backups: the arguments of each export run, and which old backups a
//! retention limit prunes.

use vstd::prelude::*;
use crate::text::{owned, chars_of, has_prefix};
use crate::state_importer::strings_view;

verus! {

/// The arguments of one `state-exporter` run writing to `output`.
pub open spec fn spec_exporter_args(
    contract: Seq<char>,
    network: Seq<char>,
    rpc: Seq<char>,
    output: Seq<char>,
    encrypt: bool,
    key: Option<Seq<char>>,
    incremental: bool,
    base_id: Option<Seq<char>>,
) -> Seq<Seq<char>> {
    seq!["--contract"@, contract, "--network"@, network, "--rpc-url"@, rpc, "--output"@, output] + (if encrypt {
        seq!["--encrypt"@] + match key {
            Some(k) => seq!["--key"@, k],
            None => Seq::empty(),
        }
    } else {
        Seq::empty()
    }) + (if incremental && base_id is Some {
        seq!["--incremental"@, "--base"@, base_id->0]
    } else {
        Seq::empty()
    })
}

/// The view of an optional string.
pub open spec fn opt_view(o: Option<String>) -> Option<Seq<char>> {
    match o {
        Some(s) => Some(s@),
        None => None,
    }
}

/// The arguments of one `state-exporter` run writing to `output`: the contract, network,
/// endpoint and output file; `--encrypt` (with the key, when one is given) when
/// encrypting; `--incremental --base <id>` when incremental and a base backup exists.
pub fn exporter_args(
    contract: &str,
    network: &str,
    rpc: &str,
    output: &str,
    encrypt: bool,
    key: &Option<String>,
    incremental: bool,
    base_id: Option<&str>,
) -> (r: Vec<String>)
    ensures
        strings_view(r@) == spec_exporter_args(
            contract@,
            network@,
            rpc@,
            output@,
            encrypt,
            opt_view(*key),
            incremental,
            match base_id {
                Some(b) => Some(b@),
                None => None,
            },
        ),
{
    let mut v: Vec<String> = Vec::new();
    v.push(owned("--contract"));
    v.push(owned(contract));
    v.push(owned("--network"));
    v.push(owned(network));
    v.push(owned("--rpc-url"));
    v.push(owned(rpc));
    v.push(owned("--output"));
    v.push(owned(output));
    let ghost head = strings_view(v@);
    assert(head =~= seq!["--contract"@, contract@, "--network"@, network@, "--rpc-url"@, rpc@, "--output"@, output@]);
    if encrypt {
        v.push(owned("--encrypt"));
        match key {
            Some(k) => {
                v.push(owned("--key"));
                v.push(k.clone());
            },
            None => {},
        }
    }
    let ghost mid = strings_view(v@);
    assert(mid =~= head + (if encrypt {
        seq!["--encrypt"@] + match opt_view(*key) {
            Some(k) => seq!["--key"@, k],
            None => Seq::empty(),
        }
    } else {
        Seq::empty()
    }));
    if incremental {
        match base_id {
            Some(b) => {
                v.push(owned("--incremental"));
                v.push(owned("--base"));
                v.push(owned(b));
            },
            None => {},
        }
    }
    assert(strings_view(v@) =~= spec_exporter_args(
        contract@,
        network@,
        rpc@,
        output@,
        encrypt,
        opt_view(*key),
        incremental,
        match base_id {
            Some(b) => Some(b@),
            None => None,
        },
    ));
    v
}

/// A file found in the backup directory: its name and when it was last modified, as
/// seconds and nanoseconds since the Unix epoch.
pub struct BackupFile {
    pub name: String,
    pub modified_secs: u64,
    pub modified_nanos: u32,
}

/// Whether a file name has the extension `json`: it ends in `.json` with something before
/// the dot.
pub open spec fn is_json_name(name: Seq<char>) -> bool {
    name.len() > 5 && name.subrange(name.len() - 5, name.len() as int) == ".json"@
}

/// Whether file `a` (at position `ai` of the listing) comes before file `b` (at `bi`) in
/// order of modification, the listing order breaking ties.
pub open spec fn older(a: BackupFile, ai: int, b: BackupFile, bi: int) -> bool {
    ||| a.modified_secs < b.modified_secs
    ||| a.modified_secs == b.modified_secs && a.modified_nanos < b.modified_nanos
    ||| a.modified_secs == b.modified_secs && a.modified_nanos == b.modified_nanos && ai < bi
}

/// The number of `true` entries.
pub open spec fn count_true(s: Seq<bool>) -> nat
    decreases s.len(),
{
    if s.len() == 0 {
        0
    } else {
        count_true(s.drop_last()) + if s.last() {
            1nat
        } else {
            0nat
        }
    }
}

/// Which files of the listing are backups.
pub open spec fn json_flags(files: Seq<BackupFile>) -> Seq<bool> {
    Seq::new(files.len(), |i: int| is_json_name(files[i].name@))
}

/// The number of backups in the listing.
pub open spec fn json_count(files: Seq<BackupFile>) -> nat {
    count_true(json_flags(files))
}

/// How many backups a limit of `max_backups` prunes: none when the limit is 0 (no limit)
/// or not exceeded, else as many as exceed it.
pub open spec fn prune_count(files: Seq<BackupFile>, max_backups: usize) -> nat {
    if max_backups == 0 || json_count(files) <= max_backups {
        0
    } else {
        (json_count(files) - max_backups) as nat
    }
}

proof fn lemma_count_take(s: Seq<bool>, i: int)
    requires
        0 <= i < s.len(),
    ensures
        count_true(s.take(i + 1)) == count_true(s.take(i)) + if s[i] {
            1nat
        } else {
            0nat
        },
{
    assert(s.take(i + 1).drop_last() =~= s.take(i));
}

proof fn lemma_count_update(s: Seq<bool>, i: int)
    requires
        0 <= i < s.len(),
        !s[i],
    ensures
        count_true(s.update(i, true)) == count_true(s) + 1,
    decreases s.len(),
{
    let t = s.update(i, true);
    if i == s.len() - 1 {
        assert(t.drop_last() =~= s.drop_last());
    } else {
        assert(t.drop_last() =~= s.drop_last().update(i, true));
        lemma_count_update(s.drop_last(), i);
    }
}

proof fn lemma_count_none(s: Seq<bool>)
    requires
        forall|i: int| 0 <= i < s.len() ==> !#[trigger] s[i],
    ensures
        count_true(s) == 0,
    decreases s.len(),
{
    if s.len() > 0 {
        assert forall|i: int| 0 <= i < s.len() - 1 implies !#[trigger] s.drop_last()[i] by {
            assert(s.drop_last()[i] == s[i]);
        }
        lemma_count_none(s.drop_last());
    }
}

proof fn lemma_count_sub(c: Seq<bool>, j: Seq<bool>)
    requires
        c.len() == j.len(),
        forall|i: int| 0 <= i < c.len() && #[trigger] c[i] ==> j[i],
    ensures
        count_true(c) <= count_true(j),
        count_true(c) == count_true(j) ==> c == j,
    decreases c.len(),
{
    if c.len() > 0 {
        lemma_count_sub(c.drop_last(), j.drop_last());
        if count_true(c) == count_true(j) {
            assert(c.drop_last() == j.drop_last());
            assert(c =~= j) by {
                assert forall|i: int| 0 <= i < c.len() implies c[i] == j[i] by {
                    if i < c.len() - 1 {
                        assert(c[i] == c.drop_last()[i]);
                        assert(j[i] == j.drop_last()[i]);
                    }
                }
            }
        }
    }
}

/// Whether a file name has the extension `json`.
pub fn is_json_file_name(name: &str) -> (r: bool)
    ensures
        r == is_json_name(name@),
{
    let c = chars_of(name);
    let n = c.len();
    proof {
        reveal_strlit(".json");
    }
    if n <= 5 {
        return false;
    }
    let r = c[n - 5] == '.' && c[n - 4] == 'j' && c[n - 3] == 's' && c[n - 2] == 'o' && c[n - 1] == 'n';
    let ghost tail = name@.subrange(n - 5, n as int);
    assert(r ==> tail =~= ".json"@);
    assert(tail == ".json"@ ==> tail[0] == '.' && tail[1] == 'j' && tail[2] == 's' && tail[3] == 'o' && tail[4]
        == 'n');
    r
}

fn is_older(files: &Vec<BackupFile>, a: usize, b: usize) -> (r: bool)
    requires
        a < files@.len(),
        b < files@.len(),
    ensures
        r == older(files@[a as int], a as int, files@[b as int], b as int),
{
    let x = &files[a];
    let y = &files[b];
    x.modified_secs < y.modified_secs || (x.modified_secs == y.modified_secs && x.modified_nanos
        < y.modified_nanos) || (x.modified_secs == y.modified_secs && x.modified_nanos == y.modified_nanos
        && a < b)
}

/// Which backups a retention limit of `max_backups` prunes, by position in the listing,
/// in increasing order: with a limit (non-zero) that the backups exceed, as many as exceed
/// it, every one of them older than every backup kept. Files that are not backups are
/// never pruned.
pub fn backups_to_prune(files: &Vec<BackupFile>, max_backups: usize) -> (r: Vec<usize>)
    ensures
        r@.len() == prune_count(files@, max_backups),
        forall|k: int| 0 <= k < r@.len() ==> #[trigger] r@[k] < files@.len() && is_json_name(files@[r@[k] as int].name@),
        forall|a: int, b: int| 0 <= a < b < r@.len() ==> r@[a] < r@[b],
        forall|k: int, j: int|
            0 <= k < r@.len() && 0 <= j < files@.len() && is_json_name(files@[j].name@) && !r@.contains(
                j as usize,
            ) ==> older(files@[r@[k] as int], r@[k] as int, files@[j], j),
{
    let n = files.len();
    let ghost fl = json_flags(files@);
    let mut flags: Vec<bool> = Vec::new();
    let mut total: usize = 0;
    for i in 0..n
        invariant
            n == files@.len(),
            fl == json_flags(files@),
            flags@ == fl.take(i as int),
            total == count_true(fl.take(i as int)),
            total <= i,
    {
        let j = is_json_file_name(files[i].name.as_str());
        flags.push(j);
        proof {
            lemma_count_take(fl, i as int);
        }
        if j {
            total = total + 1;
        }
    }
    assert(fl.take(n as int) =~= fl);
    if max_backups == 0 || total <= max_backups {
        return Vec::new();
    }
    let excess = total - max_backups;
    let mut chosen: Vec<bool> = Vec::new();
    for i in 0..n
        invariant
            chosen@.len() == i,
            forall|j: int| 0 <= j < i ==> !chosen@[j],
    {
        chosen.push(false);
    }
    proof {
        lemma_count_none(chosen@);
    }
    let mut k: usize = 0;
    while k < excess
        invariant
            n == files@.len(),
            fl == json_flags(files@),
            fl.len() == n,
            flags@ == fl,
            total == count_true(fl),
            excess == total - max_backups,
            max_backups > 0,
            k <= excess,
            chosen@.len() == n,
            count_true(chosen@) == k,
            forall|i: int| 0 <= i < n && #[trigger] chosen@[i] ==> fl[i],
            forall|i: int, j: int|
                0 <= i < n && 0 <= j < n && chosen@[i] && fl[j] && !chosen@[j] ==> older(
                    files@[i],
                    i,
                    files@[j],
                    j,
                ),
        decreases excess - k,
    {
        let mut best: Option<usize> = None;
        for i in 0..n
            invariant
                n == files@.len(),
                fl.len() == n,
                flags@ == fl,
                chosen@.len() == n,
                match best {
                    Some(b) => b < i && fl[b as int] && !chosen@[b as int] && forall|j: int|
                        0 <= j < i && fl[j] && !chosen@[j] && j != b ==> older(
                            files@[b as int],
                            b as int,
                            files@[j],
                            j,
                        ),
                    None => forall|j: int| 0 <= j < i ==> !(fl[j] && !chosen@[j]),
                },
        {
            if flags[i] && !chosen[i] {
                match best {
                    None => {
                        best = Some(i);
                    },
                    Some(b) => {
                        if is_older(files, i, b) {
                            best = Some(i);
                        }
                    },
                }
            }
        }
        let b = match best {
            Some(b) => b,
            None => {
                proof {
                    lemma_count_sub(chosen@, fl);
                    assert forall|j: int| 0 <= j < n implies chosen@[j] == fl[j] by {
                        if fl[j] {
                            assert(chosen@[j]);
                        }
                    }
                    assert(chosen@ =~= fl);
                }
                return Vec::new();
            },
        };
        proof {
            lemma_count_update(chosen@, b as int);
        }
        chosen.set(b, true);
        k = k + 1;
    }
    let mut r: Vec<usize> = Vec::new();
    for i in 0..n
        invariant
            n == files@.len(),
            chosen@.len() == n,
            r@.len() == count_true(chosen@.take(i as int)),
            forall|a: int| 0 <= a < r@.len() ==> #[trigger] r@[a] < i && chosen@[r@[a] as int],
            forall|a: int, c: int| 0 <= a < c < r@.len() ==> r@[a] < r@[c],
            forall|j: int| 0 <= j < i && chosen@[j] ==> r@.contains(j as usize),
    {
        proof {
            lemma_count_take(chosen@, i as int);
        }
        let ghost old_r = r@;
        if chosen[i] {
            r.push(i);
            assert(r@[r@.len() - 1] == i);
        }
        assert forall|j: int| 0 <= j < i + 1 && chosen@[j] implies r@.contains(j as usize) by {
            if j < i {
                assert(old_r.contains(j as usize));
                let w = choose|w: int| 0 <= w < old_r.len() && old_r[w] == j as usize;
                assert(r@[w] == old_r[w]);
            } else {
                assert(r@[r@.len() - 1] == i);
            }
        }
    }
    assert(chosen@.take(n as int) =~= chosen@);
    proof {
        assert forall|j: int| 0 <= j < n && r@.contains(j as usize) implies chosen@[j] by {
            let w = choose|w: int| 0 <= w < r@.len() && r@[w] == j as usize;
            assert(chosen@[r@[w] as int]);
        }
    }
    r
}

/// Whether a text is one of the flags that ask for an incremental backup.
pub open spec fn is_incremental_flag(x: Seq<char>) -> bool {
    x == "--incremental"@ || x == "--base"@
}

/// A run asks for an incremental backup exactly when it is incremental and a base backup
/// is known: only then do its arguments hold `--incremental` or `--base`, and then they end
/// with `--incremental --base <base>`. A run that is not incremental asks for a full backup
/// whatever base is known. (The values passed in must not themselves be these flags.)
pub proof fn lemma_exporter_args_mode(
    contract: Seq<char>,
    network: Seq<char>,
    rpc: Seq<char>,
    output: Seq<char>,
    encrypt: bool,
    key: Option<Seq<char>>,
    incremental: bool,
    base_id: Option<Seq<char>>,
)
    requires
        !is_incremental_flag(contract),
        !is_incremental_flag(network),
        !is_incremental_flag(rpc),
        !is_incremental_flag(output),
        key matches Some(k) ==> !is_incremental_flag(k),
    ensures
        ({
            let args = spec_exporter_args(contract, network, rpc, output, encrypt, key, incremental, base_id);
            &&& (exists|i: int| 0 <= i < args.len() && #[trigger] is_incremental_flag(args[i]))
                <==> (incremental && base_id is Some)
            &&& incremental && base_id is Some ==> args.len() >= 3 && args[args.len() - 3] == "--incremental"@
                && args[args.len() - 2] == "--base"@ && args[args.len() - 1] == base_id->0
        }),
{
    reveal_strlit("--contract");
    reveal_strlit("--network");
    reveal_strlit("--rpc-url");
    reveal_strlit("--output");
    reveal_strlit("--encrypt");
    reveal_strlit("--key");
    reveal_strlit("--incremental");
    reveal_strlit("--base");
    assert("--incremental"@.len() == 13 && "--base"@.len() == 6);
    assert("--contract"@.len() == 10 && "--network"@.len() == 9 && "--rpc-url"@.len() == 9);
    assert("--output"@.len() == 8 && "--encrypt"@.len() == 9 && "--key"@.len() == 5);
    let head = seq!["--contract"@, contract, "--network"@, network, "--rpc-url"@, rpc, "--output"@, output];
    let enc = if encrypt {
        seq!["--encrypt"@] + match key {
            Some(k) => seq!["--key"@, k],
            None => Seq::empty(),
        }
    } else {
        Seq::empty()
    };
    let inc = if incremental && base_id is Some {
        seq!["--incremental"@, "--base"@, base_id->0]
    } else {
        Seq::empty()
    };
    let args = spec_exporter_args(contract, network, rpc, output, encrypt, key, incremental, base_id);
    assert(args == head + enc + inc);
    assert forall|i: int| 0 <= i < head.len() implies !is_incremental_flag(#[trigger] head[i]) by {}
    assert forall|i: int| 0 <= i < enc.len() implies !is_incremental_flag(#[trigger] enc[i]) by {
        if encrypt {
            if i > 0 {
                assert(enc[i] == (match key {
                    Some(k) => seq!["--key"@, k],
                    None => Seq::empty(),
                })[i - 1]);
            }
        }
    }
    if incremental && base_id is Some {
        assert(is_incremental_flag(args[(head.len() + enc.len()) as int]));
    } else {
        assert(inc.len() == 0);
        assert forall|i: int| 0 <= i < args.len() implies !is_incremental_flag(#[trigger] args[i]) by {
            if i < head.len() {
                assert(args[i] == head[i]);
            } else {
                assert(args[i] == enc[i - head.len()]);
            }
        }
    }
}

/// Whether a text is one of the flags that ask for encryption.
pub open spec fn is_encryption_flag(x: Seq<char>) -> bool {
    x == "--encrypt"@ || x == "--key"@
}

/// A run encrypts exactly when asked to: `--encrypt` occurs in its arguments only then,
/// and `--key` only when a key is also given, followed by that key. (The values passed in
/// must not themselves be these flags.)
pub proof fn lemma_exporter_args_encryption(
    contract: Seq<char>,
    network: Seq<char>,
    rpc: Seq<char>,
    output: Seq<char>,
    encrypt: bool,
    key: Option<Seq<char>>,
    incremental: bool,
    base_id: Option<Seq<char>>,
)
    requires
        !is_encryption_flag(contract),
        !is_encryption_flag(network),
        !is_encryption_flag(rpc),
        !is_encryption_flag(output),
        key matches Some(k) ==> !is_encryption_flag(k),
        base_id matches Some(b) ==> !is_encryption_flag(b),
    ensures
        ({
            let args = spec_exporter_args(contract, network, rpc, output, encrypt, key, incremental, base_id);
            &&& (exists|i: int| 0 <= i < args.len() && #[trigger] args[i] == "--encrypt"@) <==> encrypt
            &&& (exists|i: int| 0 <= i < args.len() && #[trigger] args[i] == "--key"@) <==> (encrypt && key is Some)
            &&& forall|i: int| 0 <= i < args.len() && #[trigger] args[i] == "--key"@ ==> i + 1 < args.len()
                && key is Some && args[i + 1] == key->0
        }),
{
    reveal_strlit("--contract");
    reveal_strlit("--network");
    reveal_strlit("--rpc-url");
    reveal_strlit("--output");
    reveal_strlit("--encrypt");
    reveal_strlit("--key");
    reveal_strlit("--incremental");
    reveal_strlit("--base");
    assert("--incremental"@.len() == 13 && "--base"@.len() == 6);
    assert("--contract"@.len() == 10 && "--network"@.len() == 9 && "--rpc-url"@.len() == 9);
    assert("--output"@.len() == 8 && "--encrypt"@.len() == 9 && "--key"@.len() == 5);
    assert("--network"@[2] == 'n' && "--rpc-url"@[2] == 'r' && "--encrypt"@[2] == 'e');
    let head = seq!["--contract"@, contract, "--network"@, network, "--rpc-url"@, rpc, "--output"@, output];
    let ks = match key {
        Some(k) => seq!["--key"@, k],
        None => Seq::<Seq<char>>::empty(),
    };
    let enc = if encrypt {
        seq!["--encrypt"@] + ks
    } else {
        Seq::empty()
    };
    let inc = if incremental && base_id is Some {
        seq!["--incremental"@, "--base"@, base_id->0]
    } else {
        Seq::empty()
    };
    let args = spec_exporter_args(contract, network, rpc, output, encrypt, key, incremental, base_id);
    assert(args == head + enc + inc);
    let a = head.len() as int;
    let c = a + enc.len();
    assert forall|i: int| 0 <= i < args.len() && #[trigger] args[i] == "--encrypt"@ implies encrypt && i == a by {
        if i < a {
            assert(args[i] == head[i]);
        } else if i < c {
            assert(args[i] == enc[i - a]);
            if i > a {
                assert(enc[i - a] == ks[i - a - 1]);
            }
        } else {
            assert(args[i] == inc[i - c]);
        }
    }
    assert forall|i: int| 0 <= i < args.len() && #[trigger] args[i] == "--key"@ implies encrypt && key is Some
        && i == a + 1 && i + 1 < args.len() && args[i + 1] == key->0 by {
        if i < a {
            assert(args[i] == head[i]);
        } else if i < c {
            assert(args[i] == enc[i - a]);
            if i > a {
                assert(enc[i - a] == ks[i - a - 1]);
                if i > a + 1 {
                    assert(ks[i - a - 1] == key->0);
                }
                assert(i == a + 1);
                assert(enc[2] == ks[1]);
                assert(args[a + 2] == enc[2]);
            }
        } else {
            assert(args[i] == inc[i - c]);
        }
    }
    if encrypt {
        assert(args[a] == "--encrypt"@);
        if key is Some {
            assert(args[a + 1] == "--key"@);
        }
    }
}

} // verus!
