//! Logic of the blob-fetching tool: picking one store out of a multiplexed
//! configuration, and guessing from a key how to decode its blob.

use vstd::prelude::*;
use vstd::string::StringExecFns;
use vstd::string::StrSliceExecFns;
use crate::errors::ApiError;

verus! {

/// `needle` stands in `hay` at position `i`.
pub open spec fn matches_at(hay: Seq<char>, needle: Seq<char>, i: int) -> bool {
    0 <= i && i + needle.len() <= hay.len() && hay.subrange(i, i + needle.len()) == needle
}

/// `needle` stands somewhere in `hay`.
pub open spec fn contains_sub(hay: Seq<char>, needle: Seq<char>) -> bool {
    exists|i: int| matches_at(hay, needle, i)
}

/// `needle` stands in `hay` exactly at position `i`.
fn match_at(hay: &str, needle: &str, i: usize) -> (r: bool)
    requires
        i + needle@.len() <= hay@.len(),
    ensures
        r == matches_at(hay@, needle@, i as int),
{
    let hl = hay.unicode_len();
    let nl = needle.unicode_len();
    let mut j: usize = 0;
    while j < nl
        invariant
            j <= nl,
            nl == needle@.len(),
            hl == hay@.len(),
            i + nl <= hl,
            forall|j2: int| 0 <= j2 < j ==> hay@[i + j2] == needle@[j2],
        decreases nl - j,
    {
        if hay.get_char(i + j) != needle.get_char(j) {
            proof {
                assert(hay@.subrange(i as int, i + nl)[j as int] == hay@[i + j]);
            }
            return false;
        }
        j = j + 1;
    }
    proof {
        assert(hay@.subrange(i as int, i + nl) =~= needle@);
    }
    true
}

/// Whether `needle` occurs anywhere in `hay`.
pub fn contains_str(hay: &str, needle: &str) -> (r: bool)
    ensures
        r == contains_sub(hay@, needle@),
{
    let hl = hay.unicode_len();
    let nl = needle.unicode_len();
    if nl > hl {
        proof {
            assert(forall|i: int| !matches_at(hay@, needle@, i));
        }
        return false;
    }
    if nl == 0 {
        proof {
            assert(hay@.subrange(0, 0) =~= needle@);
            assert(matches_at(hay@, needle@, 0));
        }
        return true;
    }
    let mut i: usize = 0;
    while i <= hl - nl
        invariant
            hl == hay@.len(),
            nl == needle@.len(),
            0 < nl <= hl,
            i <= hl - nl + 1,
            forall|i2: int| 0 <= i2 < i ==> !matches_at(hay@, needle@, i2),
        decreases hl - i,
    {
        if match_at(hay, needle, i) {
            proof {
                assert(matches_at(hay@, needle@, i as int));
            }
            return true;
        }
        i = i + 1;
    }
    proof {
        assert(forall|i2: int| matches_at(hay@, needle@, i2) ==> 0 <= i2 && i2 + nl <= hl);
    }
    false
}

/// Guesses, from the shape of a blob's key, how its value should be
/// decoded: the first of the known key markers found in it decides.
pub fn detect_decode(key: &str) -> (r: Option<String>)
    ensures
        contains_sub(key@, "hgchangeset."@) ==> (r matches Some(s) && s@ == "changeset"@),
        !contains_sub(key@, "hgchangeset."@) && contains_sub(key@, "hgmanifest."@) ==> (
        r matches Some(s) && s@ == "manifest"@),
        !contains_sub(key@, "hgchangeset."@) && !contains_sub(key@, "hgmanifest."@)
            && contains_sub(key@, "hgfilenode."@) ==> (r matches Some(s) && s@ == "file"@),
        !contains_sub(key@, "hgchangeset."@) && !contains_sub(key@, "hgmanifest."@)
            && !contains_sub(key@, "hgfilenode."@) && contains_sub(key@, "content."@) ==> (
        r matches Some(s) && s@ == "contents"@),
        !contains_sub(key@, "hgchangeset."@) && !contains_sub(key@, "hgmanifest."@)
            && !contains_sub(key@, "hgfilenode."@) && !contains_sub(key@, "content."@) ==> r
            is None,
{
    if contains_str(key, "hgchangeset.") {
        Some(String::from_str("changeset"))
    } else if contains_str(key, "hgmanifest.") {
        Some(String::from_str("manifest"))
    } else if contains_str(key, "hgfilenode.") {
        Some(String::from_str("file"))
    } else if contains_str(key, "content.") {
        Some(String::from_str("contents"))
    } else {
        None
    }
}

// ---------------------------------------------------------------------------
// Picking a store out of a blob-store configuration.
// ---------------------------------------------------------------------------

/// A blob-store configuration: one store on disk, or several stores
/// multiplexed, each under a numeric identifier.
pub enum BlobConfig {
    Disk { path: String },
    Multiplexed { blobstores: Vec<(u64, BlobConfig)> },
}

/// The configuration of the first store carrying `id`.
pub open spec fn find_blobstore(s: Seq<(u64, BlobConfig)>, id: u64) -> Option<BlobConfig>
    decreases s.len(),
{
    if s.len() == 0 {
        None
    } else if s[0].0 == id {
        Some(s[0].1)
    } else {
        find_blobstore(s.skip(1), id)
    }
}

/// Resolves which store a fetch should use: the whole configuration when no
/// inner store is named; the named inner store of a multiplexed
/// configuration otherwise. Naming an inner store of anything not
/// multiplexed, or one that the configuration does not carry, is a
/// configuration error.
pub fn get_blobconfig(blob_config: BlobConfig, inner_blobstore_id: Option<u64>) -> (r: Result<
    BlobConfig,
    ApiError,
>)
    ensures
        inner_blobstore_id is None ==> (r matches Ok(c) && c == blob_config),
        inner_blobstore_id matches Some(id) ==> match blob_config {
            BlobConfig::Multiplexed { blobstores } => match find_blobstore(blobstores@, id) {
                Some(c) => r == Ok::<BlobConfig, ApiError>(c),
                None => r matches Err(e) && e is Config,
            },
            _ => r matches Err(e) && e is Config,
        },
{
    let id = match inner_blobstore_id {
        None => {
            return Ok(blob_config);
        },
        Some(id) => id,
    };
    match blob_config {
        BlobConfig::Multiplexed { blobstores } => {
            let ghost orig = blobstores@;
            let mut rest = blobstores;
            while rest.len() > 0
                invariant
                    inner_blobstore_id == Some(id),
                    blob_config matches BlobConfig::Multiplexed { blobstores: bs } && bs@ == orig,
                    find_blobstore(orig, id) == find_blobstore(rest@, id),
                decreases rest@.len(),
            {
                let ghost before = rest@;
                let (bid, cfg) = rest.remove(0);
                proof {
                    assert(rest@ =~= before.skip(1));
                    assert(before[0].0 == bid && before[0].1 == cfg);
                }
                if bid == id {
                    return Ok(cfg);
                }
            }
            proof {
                assert(find_blobstore(rest@, id) is None);
            }
            Err(
                ApiError::Config {
                    msg: String::from_str("could not find a blobstore with the given id"),
                },
            )
        },
        other => Err(
            ApiError::Config {
                msg: String::from_str("inner-blobstore-id supplied but blobstore is not multiplexed"),
            },
        ),
    }
}

} // verus!
