//! Resolving configured key names ("KEY_J") to keycodes and building the
//! keymap from named pairs. Malformed entries are reported as errors so the
//! caller can fail at startup; nothing here is retried at runtime.

use vstd::prelude::*;
use crate::keymap::Keymap;
use crate::keymap::pairs_to_map;

verus! {

/// The keycode that evdev's key-name table gives a name, or `None` for a
/// name it does not know. The table is a fixed part of evdev, so the result
/// depends on the name alone.
pub uninterp spec fn key_code_of(name: Seq<char>) -> Option<u16>;

/// Relies on `evdev::KeyCode::from_str`, which looks a key name such as
/// "KEY_J" up in evdev's static name table, and on `KeyCode::code`, which
/// returns the wrapped keycode. The result depends on the name alone.
#[verifier::external_body]
pub(crate) fn parse_key_code(name: &str) -> (r: Option<u16>)
    ensures
        r == key_code_of(name@),
{
    match <evdev::KeyCode as core::str::FromStr>::from_str(name) {
        Ok(k) => Some(k.code()),
        Err(_) => None,
    }
}

/// Why a configuration could not be turned into an engine.
#[derive(Clone, Copy, Debug, PartialEq, Eq, Structural)]
pub enum ConfigError {
    /// The configured mod-tap key name is not a known key.
    BadFnKey,
    /// The configured pause-toggle key name is not a known key.
    BadPauseKey,
    /// A keymap entry's source key name is not a known key.
    BadKeymapKey,
    /// A keymap entry's destination key name is not a known key.
    BadKeymapValue,
}

/// The meaning of a list of named keymap pairs: resolve each name in order
/// and insert, so a later pair for the same source key wins. The first
/// unresolvable name decides the error, the source name of a pair before its
/// destination name.
pub open spec fn names_to_map(pairs: Seq<(String, String)>) -> Result<Map<u16, u16>, ConfigError>
    decreases pairs.len(),
{
    if pairs.len() == 0 {
        Ok(Map::empty())
    } else {
        match names_to_map(pairs.drop_last()) {
            Err(e) => Err(e),
            Ok(m) => match key_code_of(pairs.last().0@) {
                None => Err(ConfigError::BadKeymapKey),
                Some(k) => match key_code_of(pairs.last().1@) {
                    None => Err(ConfigError::BadKeymapValue),
                    Some(v) => Ok(m.insert(k, v)),
                },
            },
        }
    }
}

/// Builds a keymap from named pairs, resolving every name through evdev's
/// key-name table. Returns the first error, checking pairs in order and each
/// pair's source name before its destination name.
pub fn keymap_from_names(pairs: &Vec<(String, String)>) -> (r: Result<Keymap, ConfigError>)
    ensures
        match r {
            Ok(km) => names_to_map(pairs@) == Ok::<Map<u16, u16>, ConfigError>(km@),
            Err(e) => names_to_map(pairs@) == Err::<Map<u16, u16>, ConfigError>(e),
        },
{
    let mut resolved: Vec<(u16, u16)> = Vec::new();
    let mut i: usize = 0;
    proof {
        assert(pairs@.take(0) =~= Seq::<(String, String)>::empty());
    }
    while i < pairs.len()
        invariant
            i <= pairs.len(),
            names_to_map(pairs@.take(i as int)) == Ok::<Map<u16, u16>, ConfigError>(
                pairs_to_map(resolved@),
            ),
        decreases pairs.len() - i,
    {
        proof {
            assert(pairs@.take(i + 1).drop_last() =~= pairs@.take(i as int));
            assert(pairs@.take(i + 1).last() == pairs@[i as int]);
            assert(pairs@.take(pairs@.len() as int) =~= pairs@);
        }
        let p = &pairs[i];
        let k = match parse_key_code(p.0.as_str()) {
            Some(k) => k,
            None => {
                proof {
                    lemma_names_to_map_err_extends(pairs@, i as int);
                }
                return Err(ConfigError::BadKeymapKey);
            },
        };
        let v = match parse_key_code(p.1.as_str()) {
            Some(v) => v,
            None => {
                proof {
                    lemma_names_to_map_err_extends(pairs@, i as int);
                }
                return Err(ConfigError::BadKeymapValue);
            },
        };
        let ghost prev = resolved@;
        resolved.push((k, v));
        proof {
            assert(resolved@.drop_last() =~= prev);
        }
        i = i + 1;
    }
    proof {
        assert(pairs@.take(pairs@.len() as int) =~= pairs@);
    }
    Ok(Keymap::from_pairs(resolved))
}

/// Once a prefix of the pairs fails to resolve, the whole list fails with
/// the same error.
proof fn lemma_names_to_map_err_extends(pairs: Seq<(String, String)>, i: int)
    requires
        0 <= i < pairs.len(),
        names_to_map(pairs.take(i + 1)) is Err,
    ensures
        names_to_map(pairs) == names_to_map(pairs.take(i + 1)),
    decreases pairs.len() - i,
{
    if i + 1 == pairs.len() {
        assert(pairs.take(i + 1) =~= pairs);
    } else {
        assert(pairs.take(i + 2).drop_last() =~= pairs.take(i + 1));
        lemma_names_to_map_err_extends(pairs, i + 1);
    }
}

} // verus!
