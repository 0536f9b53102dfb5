//! Whether a collection builds indexes from its queries: an explicit flag
//! stored in the collection (`1` on, `0` off), else the `SOLIDB_AUTO_INDEX`
//! setting. An explicit `0` always wins, so disabling is a real opt-out.
use vstd::prelude::*;
use vstd::utf8::encode_utf8;
use crate::cf_ops::{eq_ignore_ascii_case, lower_eq};
use crate::versioning::{trim, trimmed};

verus! {

/// Where the flag is stored.
pub const AUTO_INDEX_META_KEY: &'static str = "_stats:auto_index";

/// What the `SOLIDB_AUTO_INDEX` setting (`None` when unset) asks for: on
/// when, without surrounding white space, it is `1` or `true` in any ASCII
/// case.
pub open spec fn spec_env_auto_index(setting: Option<Seq<char>>) -> bool {
    match setting {
        Some(s) => encode_utf8(trimmed(s)) == seq![0x31u8] || lower_eq(
            encode_utf8(trimmed(s)),
            seq![0x74u8, 0x72u8, 0x75u8, 0x65u8],
        ),
        None => false,
    }
}

/// What the `SOLIDB_AUTO_INDEX` setting asks for.
pub fn env_auto_index(setting: Option<&str>) -> (r: bool)
    ensures
        r == spec_env_auto_index(
            match setting {
                Some(s) => Some(s@),
                None => None,
            },
        ),
{
    match setting {
        Some(s) => {
            let t = trim(s);
            let b = t.as_bytes();
            assert(b@ == encode_utf8(t@));
            let one = b.len() == 1 && b[0] == 0x31;
            proof {
                if one {
                    assert(b@ =~= seq![0x31u8]);
                }
            }
            let word: [u8; 4] = [0x74, 0x72, 0x75, 0x65];
            let w = word.as_slice();
            assert(w@ =~= seq![0x74u8, 0x72u8, 0x75u8, 0x65u8]);
            one || eq_ignore_ascii_case(b, w)
        },
        None => false,
    }
}

/// Whether auto-indexing is on, given the stored flag (`None` when the
/// collection has none) and the setting.
pub open spec fn spec_auto_index_enabled(stored: Option<Seq<u8>>, setting: Option<Seq<char>>) -> bool {
    match stored {
        Some(v) => v != seq![0x30u8],
        None => spec_env_auto_index(setting),
    }
}

/// Whether auto-indexing is on: a stored `0` turns it off, any other
/// stored flag on; without one the setting decides.
pub fn auto_index_enabled(stored: Option<&[u8]>, setting: Option<&str>) -> (r: bool)
    ensures
        r == spec_auto_index_enabled(
            match stored {
                Some(v) => Some(v@),
                None => None,
            },
            match setting {
                Some(s) => Some(s@),
                None => None,
            },
        ),
{
    match stored {
        Some(v) => {
            let off = v.len() == 1 && v[0] == 0x30;
            proof {
                if off {
                    assert(v@ =~= seq![0x30u8]);
                }
            }
            !off
        },
        None => env_auto_index(setting),
    }
}

/// The flag `enable_auto_index` stores.
pub fn enabled_flag() -> (r: Vec<u8>)
    ensures
        r@ == seq![0x31u8],
{
    let mut v: Vec<u8> = Vec::new();
    v.push(0x31);
    assert(v@ =~= seq![0x31u8]);
    v
}

/// The flag `disable_auto_index` stores.
pub fn disabled_flag() -> (r: Vec<u8>)
    ensures
        r@ == seq![0x30u8],
{
    let mut v: Vec<u8> = Vec::new();
    v.push(0x30);
    assert(v@ =~= seq![0x30u8]);
    v
}

/// Disabling is a real opt-out and enabling a real opt-in: once a flag is
/// stored, the setting no longer matters.
pub proof fn stored_flag_wins_over_the_setting(setting: Option<Seq<char>>)
    ensures
        !spec_auto_index_enabled(Some(seq![0x30u8]), setting),
        spec_auto_index_enabled(Some(seq![0x31u8]), setting),
{
    assert(seq![0x31u8] != seq![0x30u8]) by {
        assert(seq![0x31u8][0] != seq![0x30u8][0]);
    }
}

} // verus!
