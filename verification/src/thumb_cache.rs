//! Naming of the persistent thumbnail cache: the filename is the entire
//! metadata, `<seahash(abs path):016x>-<mtime_secs>.jpg`.

use vstd::prelude::*;
use crate::digits::{dec_chars, push_dec, push_hex_fixed};
use crate::raster_cache::{hash_prefix_of, path_hash, seahash_of_path};
use crate::text::string_of;

verus! {

/// `<hash:016x>-<mtime>.jpg`.
pub open spec fn thumb_name_of(hash: u64, mtime_secs: u64) -> Seq<char> {
    hash_prefix_of(hash) + dec_chars(mtime_secs as nat) + seq!['.', 'j', 'p', 'g']
}

/// The thumbnail name for a source whose path hashes to `hash`.
pub fn entry_name_for_hash(hash: u64, mtime_secs: u64) -> (r: String)
    ensures
        r@ == thumb_name_of(hash, mtime_secs),
{
    let mut out: Vec<char> = Vec::new();
    push_hex_fixed(&mut out, hash, 16);
    out.push('-');
    push_dec(&mut out, mtime_secs);
    out.push('.');
    out.push('j');
    out.push('p');
    out.push('g');
    assert(out@ =~= thumb_name_of(hash, mtime_secs));
    string_of(out.as_slice())
}

/// Cache filename for `path` at `mtime_secs`. The fixed-width hash and the
/// `-` separator keep the entries of one source prefix-scannable.
pub fn entry_name(path: &str, mtime_secs: u64) -> (r: String)
    ensures
        r@ == thumb_name_of(seahash_of_path(path@), mtime_secs),
{
    entry_name_for_hash(path_hash(path), mtime_secs)
}

} // verus!
