//! The manifest mutator: writes the new version into a planned package's
//! manifest and rewrites dependency declarations that reference planned
//! packages, across the three dependency sections. The surgical TOML edits
//! are toml_edit's work, named and trusted; the orchestration around them
//! is verified.

use toml_edit::{value, DocumentMut};
use vstd::prelude::*;
use vstd::string::*;

use crate::version::{spec_version_str, version_string, Version};

verus! {

/// Whether toml_edit can parse this text as a document.
pub uninterp spec fn toml_parse_ok(text: Seq<char>) -> bool;

/// Whether the document has a `[package]` table.
pub uninterp spec fn toml_has_package(text: Seq<char>) -> bool;

/// The document with `version` under `[package]` set to `ver`, everything
/// else preserved as toml_edit renders it.
pub uninterp spec fn toml_with_pkg_version(text: Seq<char>, ver: Seq<char>) -> Seq<char>;

/// Whether the named dependency entry in the named section exists in a
/// rewritable form: a bare version string, or a table carrying `version`.
pub uninterp spec fn toml_dep_applies(text: Seq<char>, section: Seq<char>, name: Seq<char>) -> bool;

/// The document with that dependency's declared version set to `ver`,
/// everything else preserved.
pub uninterp spec fn toml_with_dep_version(
    text: Seq<char>,
    section: Seq<char>,
    name: Seq<char>,
    ver: Seq<char>,
) -> Seq<char>;

/// Relies on toml_edit's DocumentMut: parse the text and, when a package
/// table exists, set `package.version` and render; toml_edit preserves all
/// other formatting and content, and its rendering parses back. Without a
/// package table the input text itself comes back, untouched.
#[verifier::external_body]
fn set_package_version_raw(text: &str, ver: &str) -> (r: Option<(String, bool)>)
    ensures
        r is Some <==> toml_parse_ok(text@),
        match r {
            Some(p) => {
                &&& p.1 == toml_has_package(text@)
                &&& p.0@ == if toml_has_package(text@) {
                    toml_with_pkg_version(text@, ver@)
                } else {
                    text@
                }
                &&& toml_parse_ok(p.0@)
            },
            None => true,
        },
{
    let mut doc = match text.parse::<DocumentMut>() { Ok(d) => d, Err(_) => return None };
    let pkg = match doc.get_mut("package") { Some(it) => it.as_table_mut(), None => None };
    match pkg {
        Some(pkg) => { pkg.insert("version", value(ver)); }
        None => return Some((text.to_owned(), false)),
    }
    Some((doc.to_string(), true))
}

/// Relies on toml_edit's DocumentMut: parse the text and, where the named
/// dependency in the named section is a bare string or a table with a
/// `version` key, rewrite its version and render; toml_edit preserves all
/// other formatting and content, and its rendering parses back. Without a
/// rewritable entry the input text itself comes back, untouched.
#[verifier::external_body]
fn set_dep_version_raw(text: &str, section: &str, name: &str, ver: &str) -> (r: Option<
    (String, bool),
>)
    ensures
        r is Some <==> toml_parse_ok(text@),
        match r {
            Some(p) => {
                &&& p.1 == toml_dep_applies(text@, section@, name@)
                &&& p.0@ == if toml_dep_applies(text@, section@, name@) {
                    toml_with_dep_version(text@, section@, name@, ver@)
                } else {
                    text@
                }
                &&& toml_parse_ok(p.0@)
            },
            None => true,
        },
{
    let mut doc = match text.parse::<DocumentMut>() { Ok(d) => d, Err(_) => return None };
    let tbl = match doc.get_mut(section) { Some(v) => v.as_table_like_mut(), None => None };
    let item = match tbl { Some(t) => t.get_mut(name), None => None };
    let slot = match item {
        Some(it) if it.is_str() => Some(it),
        Some(it) => match it.as_table_like_mut() { Some(d) => d.get_mut("version"), None => None },
        None => None,
    };
    match slot {
        Some(x) => { *x = value(ver); }
        None => return Some((text.to_owned(), false)),
    }
    Some((doc.to_string(), true))
}

/// Relies on toml_edit's DocumentMut parse: whether the text is a valid
/// document.
#[verifier::external_body]
fn toml_check_parse(text: &str) -> (r: bool)
    ensures
        r == toml_parse_ok(text@),
{
    text.parse::<DocumentMut>().is_ok()
}

/// One dependency rewrite step at the spec level: the new text and whether
/// the entry was rewritten.
pub open spec fn spec_apply_dep(
    text: Seq<char>,
    section: Seq<char>,
    name: Seq<char>,
    ver: Seq<char>,
) -> (Seq<char>, bool) {
    if toml_dep_applies(text, section, name) {
        (toml_with_dep_version(text, section, name, ver), true)
    } else {
        (text, false)
    }
}

/// The first `k` planned packages' rewrites applied to one section, in
/// order.
pub open spec fn spec_apply_deps_in_section(
    text: Seq<char>,
    section: Seq<char>,
    changed: Seq<(String, Version)>,
    k: int,
) -> (Seq<char>, bool)
    decreases k,
{
    if k <= 0 {
        (text, false)
    } else {
        let prev = spec_apply_deps_in_section(text, section, changed, k - 1);
        let step = spec_apply_dep(
            prev.0,
            section,
            changed[k - 1].0@,
            spec_version_str(changed[k - 1].1),
        );
        (step.0, prev.1 || step.1)
    }
}

/// All planned rewrites applied to the three dependency sections, in order.
pub open spec fn spec_apply_sections(text: Seq<char>, changed: Seq<(String, Version)>) -> (
    Seq<char>,
    bool,
) {
    let s1 = spec_apply_deps_in_section(text, "dependencies"@, changed, changed.len() as int);
    let s2 = spec_apply_deps_in_section(s1.0, "dev-dependencies"@, changed, changed.len() as int);
    let s3 = spec_apply_deps_in_section(
        s2.0,
        "build-dependencies"@,
        changed,
        changed.len() as int,
    );
    (s3.0, s1.1 || s2.1 || s3.1)
}

fn apply_deps_in_section(text: String, section: &str, changed: &Vec<(String, Version)>) -> (r:
    Option<(String, bool)>)
    requires
        toml_parse_ok(text@),
    ensures
        r is Some,
        match r {
            Some(p) => {
                &&& (p.0@, p.1) == spec_apply_deps_in_section(
                    text@,
                    section@,
                    changed@,
                    changed@.len() as int,
                )
                &&& toml_parse_ok(p.0@)
            },
            None => true,
        },
{
    let mut cur = text;
    let mut modified = false;
    let mut k: usize = 0;
    while k < changed.len()
        invariant
            0 <= k <= changed@.len(),
            toml_parse_ok(cur@),
            (cur@, modified) == spec_apply_deps_in_section(text@, section@, changed@, k as int),
        decreases changed@.len() - k,
    {
        let ver = version_string(&changed[k].1);
        let step = match set_dep_version_raw(cur.as_str(), section, changed[k].0.as_str(),
            ver.as_str()) {
            Some(p) => p,
            None => {
                proof {
                    assert(false);
                }
                return None;
            },
        };
        modified = modified || step.1;
        cur = step.0;
        k = k + 1;
    }
    Some((cur, modified))
}

/// Writes the new version into a manifest's package table; the text comes
/// back unchanged when it has no package table. Yields a value exactly when
/// the text parses.
pub fn update_package_version(text: &str, new_version: &Version) -> (r: Option<String>)
    ensures
        r is Some <==> toml_parse_ok(text@),
        match r {
            Some(s) => s@ == (if toml_has_package(text@) {
                toml_with_pkg_version(text@, spec_version_str(*new_version))
            } else {
                text@
            }),
            None => true,
        },
{
    let vs = version_string(new_version);
    match set_package_version_raw(text, vs.as_str()) {
        Some(p) => Some(p.0),
        None => None,
    }
}

/// The manifest text after the version stage: the package version is set
/// when this package is planned and the manifest has a package table.
pub open spec fn spec_versioned_text(
    text: Seq<char>,
    planned_version: Option<Version>,
) -> Seq<char> {
    match planned_version {
        Some(v) => if toml_has_package(text) {
            toml_with_pkg_version(text, spec_version_str(v))
        } else {
            text
        },
        None => text,
    }
}

/// Applies the full mutation to one manifest text: the package version when
/// this package is planned, then every planned package's dependency
/// rewrite across the three dependency sections. Yields a value exactly
/// when the text parses; the first flag says whether a dependency entry was
/// rewritten, the second whether the package version was written.
pub fn apply_manifest(
    text: &str,
    planned_version: Option<&Version>,
    changed: &Vec<(String, Version)>,
) -> (r: Option<(String, bool, bool)>)
    ensures
        r is Some <==> toml_parse_ok(text@),
        match r {
            Some(p) => {
                let pv = match planned_version {
                    Some(v) => Some(*v),
                    None => None,
                };
                let t1 = spec_versioned_text(text@, pv);
                &&& (p.0@, p.1) == spec_apply_sections(t1, changed@)
                &&& p.2 == (planned_version is Some && toml_has_package(text@))
            },
            None => true,
        },
{
    let mut pkg_written = false;
    let t1 = match planned_version {
        Some(v) => {
            let vs = version_string(v);
            match set_package_version_raw(text, vs.as_str()) {
                Some(p) => {
                    pkg_written = p.1;
                    p.0
                },
                None => {
                    return None;
                },
            }
        },
        None => {
            if !toml_check_parse(text) {
                return None;
            }
            text.to_owned()
        },
    };
    let s1 = match apply_deps_in_section(t1, "dependencies", changed) {
        Some(p) => p,
        None => {
            proof {
                assert(false);
            }
            return None;
        },
    };
    let s2 = match apply_deps_in_section(s1.0, "dev-dependencies", changed) {
        Some(p) => p,
        None => {
            proof {
                assert(false);
            }
            return None;
        },
    };
    let s3 = match apply_deps_in_section(s2.0, "build-dependencies", changed) {
        Some(p) => p,
        None => {
            proof {
                assert(false);
            }
            return None;
        },
    };
    Some((s3.0, s1.1 || s2.1 || s3.1, pkg_written))
}

} // verus!
