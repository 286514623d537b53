//! Resolving a symbolic version: the remote descriptor lists, per game and
//! platform, the concrete version string of each release channel. The
//! network fetch and JSON parsing stay outside; this module holds the
//! decisions made over the decoded descriptor.

use vstd::prelude::*;
use crate::models::CytrusRoot;

verus! {

/// The version-descriptor format this synchronizer understands.
pub const CYTRUS_VERSION: u16 = 6;

/// Why a symbolic version cannot be resolved; checked in this order.
#[derive(PartialEq, Eq, Structural, Debug, Clone, Copy)]
pub enum VersionError {
    UnsupportedVersion,
    UnknownGame,
    UnknownPlatform,
    UnknownRelease,
}

/// The key/value model of a lookup table held as a vector of pairs.
pub open spec fn table_model<V>(t: Seq<(String, V)>) -> Seq<(Seq<char>, V)> {
    t.map_values(|p: (String, V)| (p.0@, p.1))
}

/// The first value stored under `key`, if any. Keys are unique on a
/// well-formed descriptor, so the first match is the only one.
pub open spec fn table_find<V>(t: Seq<(Seq<char>, V)>, key: Seq<char>) -> Option<V>
    decreases t.len(),
{
    if t.len() == 0 {
        Option::None
    } else if t[0].0 == key {
        Option::Some(t[0].1)
    } else {
        table_find(t.drop_first(), key)
    }
}

proof fn lemma_table_find_skip<V>(t: Seq<(Seq<char>, V)>, key: Seq<char>, i: int)
    requires
        0 <= i <= t.len(),
        forall|k: int| 0 <= k < i ==> (#[trigger] t[k]).0 != key,
    ensures
        table_find(t, key) == table_find(t.skip(i), key),
    decreases i,
{
    if i > 0 {
        assert(t[0].0 != key);
        assert(t.drop_first().skip(i - 1) =~= t.skip(i));
        assert forall|k: int| 0 <= k < i - 1 implies (#[trigger] t.drop_first()[k]).0 != key by {
            assert(t.drop_first()[k] == t[k + 1]);
        }
        lemma_table_find_skip(t.drop_first(), key, i - 1);
    } else {
        assert(t.skip(0) =~= t);
    }
}

/// Look `key` up in a table of string-keyed pairs; the first matching entry
/// wins.
fn table_get<'a, V>(t: &'a Vec<(String, V)>, key: &String) -> (r: Option<&'a V>)
    ensures
        match r {
            Option::Some(v) => table_find(table_model(t@), key@) == Option::Some(*v),
            Option::None => table_find(table_model(t@), key@) is None,
        },
{
    let ghost m = table_model(t@);
    let mut i: usize = 0;
    while i < t.len()
        invariant
            i <= t.len(),
            m == table_model(t@),
            forall|k: int| 0 <= k < i ==> (#[trigger] m[k]).0 != key@,
        decreases t.len() - i,
    {
        proof {
            assert(m[i as int] == (t@[i as int].0@, t@[i as int].1));
        }
        if t[i].0.eq(key) {
            proof {
                lemma_table_find_skip(m, key@, i as int);
                assert(m.skip(i as int)[0] == m[i as int]);
            }
            return Some(&t[i].1);
        }
        i = i + 1;
    }
    proof {
        lemma_table_find_skip(m, key@, t@.len() as int);
        assert(m.skip(t@.len() as int) =~= Seq::<(Seq<char>, V)>::empty());
    }
    None
}

/// The resolved version: the descriptor must carry the supported format
/// version, and game, platform and release must all be listed, checked in
/// that order.
pub open spec fn resolve_version_model(
    root: CytrusRoot,
    game: Seq<char>,
    platform: Seq<char>,
    release: Seq<char>,
) -> Result<Seq<char>, VersionError> {
    if root.version != CYTRUS_VERSION {
        Result::Err(VersionError::UnsupportedVersion)
    } else {
        match table_find(table_model(root.games@), game) {
            Option::None => Result::Err(VersionError::UnknownGame),
            Option::Some(g) => match table_find(table_model(g.platforms@), platform) {
                Option::None => Result::Err(VersionError::UnknownPlatform),
                Option::Some(rels) => match table_find(table_model(rels@), release) {
                    Option::None => Result::Err(VersionError::UnknownRelease),
                    Option::Some(v) => Result::Ok(v@),
                },
            },
        }
    }
}

/// Resolve the concrete version string of `game` on `platform` for the
/// `release` channel, from an already-fetched version descriptor.
pub fn get_latest_version(root: &CytrusRoot, game: &str, platform: &str, release: &str) -> (res:
    Result<String, VersionError>)
    ensures
        res is Ok <==> resolve_version_model(*root, game@, platform@, release@) is Ok,
        res is Ok ==> res->Ok_0@ == resolve_version_model(*root, game@, platform@, release@)->Ok_0,
        res is Err ==> res->Err_0 == resolve_version_model(
            *root,
            game@,
            platform@,
            release@,
        )->Err_0,
{
    if root.version != CYTRUS_VERSION {
        return Err(VersionError::UnsupportedVersion);
    }
    let game_key = game.to_owned();
    let g = match table_get(&root.games, &game_key) {
        Option::None => {
            return Err(VersionError::UnknownGame);
        },
        Option::Some(g) => g,
    };
    let platform_key = platform.to_owned();
    let rels = match table_get(&g.platforms, &platform_key) {
        Option::None => {
            return Err(VersionError::UnknownPlatform);
        },
        Option::Some(r) => r,
    };
    let release_key = release.to_owned();
    match table_get(rels, &release_key) {
        Option::None => Err(VersionError::UnknownRelease),
        Option::Some(v) => Ok(v.clone()),
    }
}

} // verus!
