//! Which object keys name Parquet files, stated over whole keys.

use vstd::prelude::*;
use crate::s3::list::{ascii_lower, spec_is_parquet_key};

verus! {

/// ASCII lower-casing of a whole string.
pub open spec fn ascii_lowercase(s: Seq<char>) -> Seq<char> {
    s.map_values(|c: char| ascii_lower(c))
}

/// Parquet keys: a key names a Parquet file exactly when its lower-cased form
/// ends with `.parquet`. In particular any key followed by `.parquet` (or by
/// `.PARQUET`) is one, and one followed by `.parquet.tmp` is not.
pub proof fn law_parquet_key_suffix(key: Seq<char>)
    ensures
        spec_is_parquet_key(key) <==> ".parquet"@.is_suffix_of(ascii_lowercase(key)),
        spec_is_parquet_key(key + ".parquet"@),
        spec_is_parquet_key(key + ".PARQUET"@),
        !spec_is_parquet_key(key + ".parquet.tmp"@),
{
    reveal_strlit(".parquet");
    reveal_strlit(".PARQUET");
    reveal_strlit(".parquet.tmp");
    let low = ascii_lowercase(key);
    let suf = ".parquet"@;
    assert(suf.len() == 8);
    if spec_is_parquet_key(key) {
        assert(low.subrange(low.len() - 8, low.len() as int) =~= suf) by {
            assert forall|i: int| 0 <= i < 8 implies low.subrange(low.len() - 8, low.len() as int)[i]
                == suf[i] by {
                assert(ascii_lower(key[key.len() - 8 + i]) == suf[i]);
            }
        }
    }
    if suf.is_suffix_of(low) {
        assert forall|i: int| 0 <= i < 8 implies ascii_lower(#[trigger] key[key.len() - 8 + i])
            == suf[i] by {
            assert(low.subrange(low.len() - 8, low.len() as int)[i] == suf[i]);
        }
    }
    let k1 = key + suf;
    assert forall|i: int| 0 <= i < 8 implies ascii_lower(#[trigger] k1[k1.len() - 8 + i])
        == suf[i] by {
        assert(k1[k1.len() - 8 + i] == suf[i]);
    }
    let up = ".PARQUET"@;
    let k2 = key + up;
    assert forall|i: int| 0 <= i < 8 implies ascii_lower(#[trigger] k2[k2.len() - 8 + i])
        == suf[i] by {
        assert(k2[k2.len() - 8 + i] == up[i]);
    }
    let k3 = key + ".parquet.tmp"@;
    assert(k3[k3.len() - 1] == 'p');
    assert(ascii_lower(k3[k3.len() - 8 + 7]) != suf[7]);
}

} // verus!
