//! The proxy: how requests and responses are filtered, cached, compressed and reported.

pub mod buffer;
pub mod cache;
pub mod compression;
pub mod context;
pub mod header_utils;
pub mod headers;
pub mod modifiers;
pub mod pipeline;
pub mod rate_limiting;
pub mod request_modifiers;
pub mod response_modifiers;
pub mod service;

use crate::config::internal;
use crate::config::internal::Settings;
use vstd::prelude::*;

verus! {

/// Takes the value of a key out of settings.
pub fn extract_val(key: &str, map: &mut Settings) -> (r: Result<String, &'static str>)
    ensures
        internal::settings_view(final(map)@) == internal::settings_view(old(map)@).remove(key@),
        match r {
            Ok(v) => internal::settings_view(old(map)@).dom().contains(key@)
                && internal::settings_view(old(map)@)[key@] == v@,
            Err(e) => !internal::settings_view(old(map)@).dom().contains(key@) && e@
                == "Missing configuration field!"@,
        },
{
    let out = map.remove(key);
    assert(internal::settings_view(map@) =~= internal::settings_view(old(map)@).remove(key@));
    match out {
        Some(v) => Ok(v),
        None => Err("Missing configuration field!"),
    }
}

/// Demands that no settings are left.
pub fn ensure_empty(map: &Settings) -> (r: Result<(), &'static str>)
    ensures
        match r {
            Ok(()) => internal::settings_view(map@) == Map::<Seq<char>, Seq<char>>::empty(),
            Err(e) => internal::settings_view(map@) != Map::<Seq<char>, Seq<char>>::empty() && e@
                == "Extra settings found!"@,
        },
{
    if map.is_empty() {
        assert(internal::settings_view(map@) =~= Map::<Seq<char>, Seq<char>>::empty());
        Ok(())
    } else {
        proof {
            if internal::settings_view(map@) == Map::<Seq<char>, Seq<char>>::empty() {
                assert(internal::settings_view(map@).dom() == map@.dom());
                assert(map@ =~= Map::<Seq<char>, String>::empty());
            }
        }
        Err("Extra settings found!")
    }
}

} // verus!
