//! Addresses of the remote objects. Bundles and loose files are fetched by
//! content hash, sharded under the hash's first two hex characters; the
//! manifest and the version descriptor have fixed shapes.

use vstd::prelude::*;

verus! {

/// Address of the version descriptor.
pub fn cytrus_json_url() -> (r: String)
    ensures
        r@ == "https://cytrus.cdn.ankama.com/cytrus.json"@,
{
    let mut s = String::new();
    s.append("https://cytrus.cdn.ankama.com/cytrus.json");
    s
}

/// Address of a bundle blob: sharded by the first two characters of its
/// content hash.
pub fn bundle_url(game: &str, hash: &String) -> (r: String)
    requires
        hash@.len() >= 2,
    ensures
        r@ == "https://cytrus.cdn.ankama.com/"@ + game@ + "/bundles/"@ + hash@.subrange(0, 2)
            + "/"@ + hash@,
{
    let mut s = String::new();
    s.append("https://cytrus.cdn.ankama.com/");
    s.append(game);
    s.append("/bundles/");
    let pref = hash.as_str().substring_char(0, 2);
    s.append(pref);
    s.append("/");
    s.append(hash.as_str());
    s
}

/// Address of a loose file fetched by content hash, sharded the same way as
/// bundles.
pub fn file_url(game: &str, hash: &String) -> (r: String)
    requires
        hash@.len() >= 2,
    ensures
        r@ == "https://cytrus.cdn.ankama.com/"@ + game@ + "/hashes/"@ + hash@.subrange(0, 2) + "/"@
            + hash@,
{
    let mut s = String::new();
    s.append("https://cytrus.cdn.ankama.com/");
    s.append(game);
    s.append("/hashes/");
    let pref = hash.as_str().substring_char(0, 2);
    s.append(pref);
    s.append("/");
    s.append(hash.as_str());
    s
}

/// Address of a release's binary manifest.
pub fn manifest_url(game: &str, version: &str, platform: &str, release: &str) -> (r: String)
    ensures
        r@ == "https://cytrus.cdn.ankama.com/"@ + game@ + "/releases/"@ + release@ + "/"@
            + platform@ + "/"@ + version@ + ".manifest"@,
{
    let mut s = String::new();
    s.append("https://cytrus.cdn.ankama.com/");
    s.append(game);
    s.append("/releases/");
    s.append(release);
    s.append("/");
    s.append(platform);
    s.append("/");
    s.append(version);
    s.append(".manifest");
    s
}

} // verus!
