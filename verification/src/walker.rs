//! Which files the scanner collects: `.slint` files that no exclusion
//! pattern matches, which folder of a crate is scanned, and how a workspace
//! root is recognised.

use vstd::prelude::*;
use vstd::utf8::*;
use vstd::string::StringSliceAdditionalSpecFns;

use crate::text::{contains, contains_bytes};

verus! {

pub const CARGO_TOML: &'static str = "Cargo.toml";

pub const SLINT_EXT: &'static str = "slint";

pub const WORKSPACE_MAX_DEPTH: usize = 5;

pub const WORKSPACE_MARKER: &'static str = "[workspace]";

/// The folder holding a crate's UI sources.
pub const UI_DIR: &'static str = "ui";

/// The folder scanned when a crate has no UI folder.
pub const SRC_DIR: &'static str = "src";

/// The folder of a crate to scan: `ui/` when it is a directory, else `src/`.
pub fn scan_dir_name(ui_is_dir: bool) -> (r: &'static str)
    ensures
        r@ == if ui_is_dir { UI_DIR@ } else { SRC_DIR@ },
{
    if ui_is_dir {
        UI_DIR
    } else {
        SRC_DIR
    }
}

/// A manifest whose text contains `[workspace]` marks a workspace root.
pub fn is_workspace_manifest(content: &str) -> (r: bool)
    ensures
        r == contains(content.spec_bytes(), WORKSPACE_MARKER.spec_bytes()),
{
    contains_bytes(content.as_bytes(), WORKSPACE_MARKER.as_bytes())
}

/// Where the component that ends at byte `j` of a path starts (just after
/// the last `/` before `j`).
pub open spec fn component_start(b: Seq<u8>, j: int) -> int
    decreases j,
{
    if j <= 0 {
        0
    } else if b[j - 1] == 0x2f {
        j
    } else {
        component_start(b, j - 1)
    }
}

/// The byte range of the file name of the path `b[..j]` (`Path::file_name`):
/// its last component, trailing `/` and `.` components aside; none when that
/// component is `..`, or when nothing but `/` and `.` remain.
pub open spec fn file_name_range(b: Seq<u8>, j: int) -> Option<(int, int)>
    decreases j,
{
    if j <= 0 || j > b.len() {
        None
    } else if b[j - 1] == 0x2f {
        file_name_range(b, j - 1)
    } else {
        let s = component_start(b, j);
        if j - s == 1 && b[s] == 0x2e {
            if s == 0 {
                None
            } else {
                file_name_range(b, s)
            }
        } else if j - s == 2 && b[s] == 0x2e && b[s + 1] == 0x2e {
            None
        } else {
            Some((s, j))
        }
    }
}

/// The position of the last `.` in `b[s..j]`, or `s - 1` when there is none.
pub open spec fn last_dot(b: Seq<u8>, s: int, j: int) -> int
    decreases j - s,
{
    if j <= s {
        s - 1
    } else if b[j - 1] == 0x2e {
        j - 1
    } else {
        last_dot(b, s, j - 1)
    }
}

/// The extension of the path is `ext` (`Path::extension`): the file name has
/// a `.` after its first byte, and what follows its last `.` is `ext`.
pub open spec fn has_extension(b: Seq<u8>, ext: Seq<u8>) -> bool {
    match file_name_range(b, b.len() as int) {
        Some((s, j)) => {
            let k = last_dot(b, s, j);
            k > s && b.subrange(k + 1, j) == ext
        },
        None => false,
    }
}

proof fn lemma_component_start(b: Seq<u8>, j: int)
    requires
        0 <= j <= b.len(),
    ensures
        0 <= component_start(b, j) <= j,
        component_start(b, j) == 0 || b[component_start(b, j) - 1] == 0x2f,
        forall|k: int| component_start(b, j) <= k < j ==> b[k] != 0x2f,
    decreases j,
{
    if j > 0 && b[j - 1] != 0x2f {
        lemma_component_start(b, j - 1);
    }
}

proof fn lemma_last_dot(b: Seq<u8>, s: int, j: int)
    requires
        0 <= s <= j <= b.len(),
    ensures
        s - 1 <= last_dot(b, s, j) < j,
        last_dot(b, s, j) >= s ==> b[last_dot(b, s, j)] == 0x2e,
        forall|k: int| last_dot(b, s, j) < k < j && k >= s ==> b[k] != 0x2e,
    decreases j - s,
{
    if j > s && b[j - 1] != 0x2e {
        lemma_last_dot(b, s, j - 1);
    }
}

/// The byte range of the file name of a path.
fn file_name_bounds(b: &[u8]) -> (r: Option<(usize, usize)>)
    ensures
        match r {
            Some((s, j)) => file_name_range(b@, b@.len() as int) == Some((s as int, j as int)) && s < j <= b@.len(),
            None => file_name_range(b@, b@.len() as int) is None,
        },
{
    let mut j = b.len();
    loop
        invariant
            j <= b.len(),
            file_name_range(b@, j as int) == file_name_range(b@, b@.len() as int),
        decreases j,
    {
        if j == 0 {
            return None;
        }
        if b[j - 1] == 0x2f {
            j = j - 1;
            continue;
        }
        let mut s = j - 1;
        while s > 0 && b[s - 1] != 0x2f
            invariant
                s < j <= b.len(),
                component_start(b@, j as int) == component_start(b@, s as int),
            decreases s,
        {
            s = s - 1;
        }
        proof {
            lemma_component_start(b@, j as int);
            assert(component_start(b@, s as int) == s);
        }
        if j - s == 1 && b[s] == 0x2e {
            if s == 0 {
                return None;
            }
            j = s;
            continue;
        }
        if j - s == 2 && b[s] == 0x2e && b[s + 1] == 0x2e {
            return None;
        }
        return Some((s, j));
    }
}

/// Whether the path's extension is `slint`.
pub fn has_slint_extension(path: &str) -> (r: bool)
    ensures
        r == has_extension(path.spec_bytes(), SLINT_EXT.spec_bytes()),
{
    let b = path.as_bytes();
    match file_name_bounds(b) {
        Some((s, j)) => {
            let mut k = j;
            while k > s && b[k - 1] != 0x2e
                invariant
                    s <= k <= j <= b@.len(),
                    last_dot(b@, s as int, j as int) == last_dot(b@, s as int, k as int),
                decreases k,
            {
                k = k - 1;
            }
            proof {
                lemma_last_dot(b@, s as int, k as int);
            }
            if k == s || k - 1 == s {
                return false;
            }
            let ext = SLINT_EXT.as_bytes();
            if j - k != ext.len() {
                assert(b@.subrange(k as int, j as int).len() != ext@.len());
                return false;
            }
            assert(has_extension(b@, ext@) == (b@.subrange(k as int, j as int) == ext@));
            let mut t: usize = 0;
            while t < ext.len()
                invariant
                    has_extension(b@, ext@) == (b@.subrange(k as int, j as int) == ext@),
                    b@ == path.spec_bytes(),
                    ext@ == SLINT_EXT.spec_bytes(),
                    t <= ext@.len() == j - k,
                    k <= j <= b@.len(),
                    forall|u: int| 0 <= u < t ==> b@[k + u] == ext@[u],
                decreases ext.len() - t,
            {
                if b[k + t] != ext[t] {
                    assert(b@.subrange(k as int, j as int)[t as int] != ext@[t as int]);
                    return false;
                }
                t = t + 1;
            }
            assert(b@.subrange(k as int, j as int) =~= ext@);
            true
        },
        None => false,
    }
}

/// What `glob::Pattern::new(pattern)` followed by `Pattern::matches(text)`
/// returns; `None` when the pattern does not compile.
pub uninterp spec fn glob_matches(pattern: Seq<char>, text: Seq<char>) -> Option<bool>;

/// Calls `glob::Pattern::new` and then `Pattern::matches`. The contract
/// claims only that the result is a function of the pattern and the text.
#[verifier::external_body]
fn glob_match_call(pattern: &str, text: &str) -> (r: Option<bool>)
    ensures
        r == glob_matches(pattern@, text@),
{
    match glob::Pattern::new(pattern) {
        Ok(p) => Some(p.matches(text)),
        Err(_) => None,
    }
}

/// Some pattern of the first `n` compiles and matches the path.
pub open spec fn excluded_by(path: Seq<char>, patterns: Seq<Seq<char>>, n: int) -> bool
    decreases n,
{
    n > 0 && (excluded_by(path, patterns, n - 1) || glob_matches(patterns[n - 1], path) == Some(true))
}

/// Whether an exclusion pattern matches the path (patterns that do not
/// compile match nothing).
pub fn is_excluded(path: &str, patterns: &[String]) -> (r: bool)
    ensures
        r == excluded_by(path@, patterns.deep_view(), patterns@.len() as int),
{
    let ghost pv = patterns.deep_view();
    let mut k: usize = 0;
    while k < patterns.len()
        invariant
            k <= patterns@.len(),
            pv == patterns.deep_view(),
            !excluded_by(path@, pv, k as int),
        decreases patterns.len() - k,
    {
        assert(pv[k as int] == patterns@[k as int]@);
        if glob_match_call(patterns[k].as_str(), path) == Some(true) {
            proof {
                lemma_excluded_stable(path@, pv, k + 1, patterns@.len() as int);
            }
            return true;
        }
        k = k + 1;
    }
    false
}

proof fn lemma_excluded_stable(path: Seq<char>, patterns: Seq<Seq<char>>, k: int, n: int)
    requires
        0 <= k <= n,
        excluded_by(path, patterns, k),
    ensures
        excluded_by(path, patterns, n),
    decreases n - k,
{
    if n > k {
        lemma_excluded_stable(path, patterns, k, n - 1);
    }
}

/// A file found under a scanned folder is collected: it is not excluded and
/// its extension is `slint`.
pub fn is_collected(path: &str, exclude: &[String]) -> (r: bool)
    ensures
        r == (!excluded_by(path@, exclude.deep_view(), exclude@.len() as int) && has_extension(
            path.spec_bytes(),
            SLINT_EXT.spec_bytes(),
        )),
{
    !is_excluded(path, exclude) && has_slint_extension(path)
}

} // verus!
