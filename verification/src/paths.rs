//! Where documentation lives on disk, relative to the user's home directory.

use vstd::prelude::*;

use crate::document::{crate_prefix, CrateInfo};

verus! {

/// `Path::join` on Unix: an absolute `comp` replaces `base`; otherwise `comp` is appended,
/// with a `/` in between unless `base` is empty or already ends in one.
pub open spec fn join_path(base: Seq<char>, comp: Seq<char>) -> Seq<char> {
    if comp.len() > 0 && comp[0] == '/' {
        comp
    } else if base.len() == 0 || base.last() == '/' {
        base + comp
    } else {
        base + seq!['/'] + comp
    }
}

/// Joins `comp` onto `base` as `Path::join` does on Unix.
pub fn path_join(base: &str, comp: &str) -> (r: String)
    ensures
        r@ == join_path(base@, comp@),
{
    let b = crate::text::chars_of(base);
    let c = crate::text::chars_of(comp);
    proof {
        reveal_strlit("/");
    }
    if c.len() > 0 && c[0] == '/' {
        return comp.to_owned();
    }
    let mut r = base.to_owned();
    if !(b.len() == 0 || b[b.len() - 1] == '/') {
        r.append("/");
    }
    r.append(comp);
    r
}

/// `home/.cargo/registry/dir`.
pub open spec fn registry_path_of(home: Seq<char>, dir: Seq<char>) -> Seq<char> {
    join_path(join_path(join_path(home, ".cargo"@), "registry"@), dir)
}

/// The registry directory `dir` under cargo's directory in `home`.
fn make_registry_path(home: &str, dir: &str) -> (r: String)
    ensures
        r@ == registry_path_of(home@, dir@),
{
    let cargo = path_join(home, ".cargo");
    let registry = path_join(cargo.as_str(), "registry");
    path_join(registry.as_str(), dir)
}

/// Where generated documentation is kept: `home/.cargo/registry/doc`.
pub fn doc_registry_path(home: &str) -> (r: String)
    ensures
        r@ == registry_path_of(home@, "doc"@),
{
    make_registry_path(home, "doc")
}

/// Where cargo keeps crate sources: `home/.cargo/registry/src`.
pub fn src_registry_path(home: &str) -> (r: String)
    ensures
        r@ == registry_path_of(home@, "src"@),
{
    make_registry_path(home, "src")
}

/// The file that holds the serialized store: `home/.cargo/registry/doc/store`.
pub fn store_file_path(home: &str) -> (r: String)
    ensures
        r@ == join_path(registry_path_of(home@, "doc"@), "store"@),
{
    let registry_path = doc_registry_path(home);
    path_join(registry_path.as_str(), "store")
}

/// The base output directory for a crate's documentation: `name-version` under the doc registry.
pub fn crate_doc_path(home: &str, crate_info: &CrateInfo) -> (r: String)
    ensures
        r@ == join_path(
            registry_path_of(home@, "doc"@),
            crate_prefix(crate_info.name@, crate_info.version@),
        ),
{
    let registry_path = doc_registry_path(home);
    let prefix = crate_info.to_path_prefix();
    path_join(registry_path.as_str(), prefix.as_str())
}

} // verus!
