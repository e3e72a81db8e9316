//! Where backups are stored: a local directory, an S3 bucket or an IPFS node, and the
//! names and addresses a backup gets in each.

use vstd::prelude::*;
use crate::text::{join2, join3, owned, replace_all, replace_str, trim_start, trim_start_matches, starts_with, has_prefix};
use crate::json::{JsonValue, JsonModel};

verus! {

/// Where backups go.
pub enum StorageBackend {
    /// A local directory.
    Local(String),
    S3(S3Config),
    Ipfs(IpfsConfig),
}

/// An S3 bucket location; credentials come from the environment.
pub struct S3Config {
    pub bucket: String,
    pub region: String,
    pub prefix: String,
}

/// An IPFS node.
pub struct IpfsConfig {
    /// IPFS HTTP API endpoint, for example `http://localhost:5001`.
    pub api_url: String,
}

/// The object key of a backup in a bucket: `<prefix>/<backup_id>.json`.
pub open spec fn spec_s3_object_key(prefix: Seq<char>, backup_id: Seq<char>) -> Seq<char> {
    prefix + "/"@ + backup_id + ".json"@
}

/// Where a backup is uploaded in S3 and the URI that names it afterwards.
pub struct S3Target {
    /// The HTTPS address the backup is written to.
    pub url: String,
    /// The `s3://` URI that names the stored backup.
    pub uri: String,
}

/// Where a backup is uploaded in S3: `https://<bucket>.s3.<region>.amazonaws.com/<key>`,
/// named afterwards by `s3://<bucket>/<key>`.
pub fn s3_upload_target(cfg: &S3Config, backup_id: &str) -> (t: S3Target)
    ensures
        t.url@ == "https://"@ + cfg.bucket@ + ".s3."@ + cfg.region@ + ".amazonaws.com/"@
            + spec_s3_object_key(cfg.prefix@, backup_id@),
        t.uri@ == "s3://"@ + cfg.bucket@ + "/"@ + spec_s3_object_key(cfg.prefix@, backup_id@),
{
    let a = join3(cfg.prefix.as_str(), "/", backup_id);
    let key = join2(a.as_str(), ".json");
    let u1 = join3("https://", cfg.bucket.as_str(), ".s3.");
    let u2 = join3(u1.as_str(), cfg.region.as_str(), ".amazonaws.com/");
    let url = join2(u2.as_str(), key.as_str());
    let v1 = join3("s3://", cfg.bucket.as_str(), "/");
    let uri = join2(v1.as_str(), key.as_str());
    proof {
        assert(key@ =~= spec_s3_object_key(cfg.prefix@, backup_id@));
        assert(url@ =~= "https://"@ + cfg.bucket@ + ".s3."@ + cfg.region@ + ".amazonaws.com/"@
            + spec_s3_object_key(cfg.prefix@, backup_id@));
        assert(uri@ =~= "s3://"@ + cfg.bucket@ + "/"@ + spec_s3_object_key(cfg.prefix@, backup_id@));
    }
    S3Target { url, uri }
}

/// The HTTPS address a stored S3 backup is fetched from: its URI with every `s3://`
/// replaced by `https://s3.amazonaws.com/`.
pub fn s3_download_url(uri: &str) -> (r: String)
    ensures
        r@ == replace_all(uri@, "s3://"@, "https://s3.amazonaws.com/"@),
{
    proof {
        reveal_strlit("s3://");
    }
    replace_str(uri, "s3://", "https://s3.amazonaws.com/")
}

/// The address that adds a file to an IPFS node.
pub fn ipfs_add_url(cfg: &IpfsConfig) -> (r: String)
    ensures
        r@ == cfg.api_url@ + "/api/v0/add"@,
{
    join2(cfg.api_url.as_str(), "/api/v0/add")
}

/// The URI naming content stored in IPFS under `cid`.
pub fn ipfs_uri(cid: &str) -> (r: String)
    ensures
        r@ == "ipfs://"@ + cid@,
{
    join2("ipfs://", cid)
}

/// The content id an IPFS add reports: its `Hash` member, which must be a string.
pub fn ipfs_cid_from_response(resp: &JsonValue) -> (r: Option<String>)
    ensures
        match r {
            Some(c) => resp@.get("Hash"@) == Some(JsonModel::Str(c@)),
            None => !(resp@.get("Hash"@) matches Some(JsonModel::Str(_))),
        },
{
    match resp.get("Hash") {
        Some(JsonValue::Str(s)) => Some(s.clone()),
        _ => None,
    }
}

/// The address that fetches an IPFS backup: the URI without every leading `ipfs://`,
/// asked of the node's `cat` endpoint.
pub fn ipfs_download_url(uri: &str, cfg: &IpfsConfig) -> (r: String)
    ensures
        r@ == cfg.api_url@ + "/api/v0/cat?arg="@ + trim_start(uri@, "ipfs://"@),
{
    proof {
        reveal_strlit("ipfs://");
    }
    let cid = trim_start_matches(uri, "ipfs://");
    join3(cfg.api_url.as_str(), "/api/v0/cat?arg=", cid.as_str())
}

/// Where a backup is read from.
#[derive(Clone, Copy, Debug, PartialEq, Eq, Structural)]
pub enum BackupSource {
    S3,
    Ipfs,
    LocalFile,
}

/// Where a backup named `backup` is read from: S3 for `s3://` URIs, IPFS for `ipfs://`
/// URIs, and the local file system for anything else.
pub fn backup_source(backup: &str) -> (r: BackupSource)
    ensures
        r == (if has_prefix(backup@, "s3://"@) {
            BackupSource::S3
        } else if has_prefix(backup@, "ipfs://"@) {
            BackupSource::Ipfs
        } else {
            BackupSource::LocalFile
        }),
{
    if starts_with(backup, "s3://") {
        BackupSource::S3
    } else if starts_with(backup, "ipfs://") {
        BackupSource::Ipfs
    } else {
        BackupSource::LocalFile
    }
}

/// Reading a stored IPFS URI back gives the content id it was made from, unless the id
/// itself begins with `ipfs://`.
pub proof fn lemma_ipfs_uri_roundtrip(cid: Seq<char>)
    requires
        !has_prefix(cid, "ipfs://"@),
    ensures
        trim_start("ipfs://"@ + cid, "ipfs://"@) == cid,
{
    reveal_strlit("ipfs://");
    let u = "ipfs://"@ + cid;
    assert(has_prefix(u, "ipfs://"@)) by {
        assert(u.take(7) =~= "ipfs://"@);
    }
    assert(u.skip(7) =~= cid);
    assert(trim_start(cid, "ipfs://"@) == cid);
    assert(trim_start(u, "ipfs://"@) == trim_start(u.skip(7), "ipfs://"@));
}

} // verus!
