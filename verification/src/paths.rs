//! The checks a provider makes before it reads a directory that a caller named:
//! the order of its refusals and the containment test, over the canonical path
//! components that the caller resolved.
use vstd::prelude::*;
use crate::text::{concat, own, str_eq};

verus! {

/// `base` is a leading run of the components of `path` (how `Path::starts_with`
/// compares paths).
pub open spec fn starts_with_components(path: Seq<Seq<char>>, base: Seq<Seq<char>>) -> bool {
    base.len() <= path.len() && path.take(base.len() as int) == base
}

/// The view of a list of path components.
pub open spec fn components_view(c: Seq<String>) -> Seq<Seq<char>> {
    Seq::new(c.len(), |i: int| c[i]@)
}

/// The view of a path that was resolved, or the error resolving it.
pub open spec fn resolved_view(r: Result<Vec<String>, String>) -> Result<Seq<Seq<char>>, Seq<char>> {
    match r {
        Ok(c) => Ok(components_view(c@)),
        Err(e) => Err(e@),
    }
}

/// Whether `base` is a leading run of the components of `path`.
pub fn has_leading_components(path: &Vec<String>, base: &Vec<String>) -> (r: bool)
    ensures
        r == starts_with_components(components_view(path@), components_view(base@)),
{
    if base.len() > path.len() {
        return false;
    }
    let ghost pv = components_view(path@);
    let ghost bv = components_view(base@);
    let mut i: usize = 0;
    while i < base.len()
        invariant
            pv == components_view(path@),
            bv == components_view(base@),
            base@.len() <= path@.len(),
            i <= base@.len(),
            forall|k: int| 0 <= k < i ==> pv[k] == bv[k],
        decreases base.len() - i,
    {
        if !str_eq(path[i].as_str(), base[i].as_str()) {
            assert(pv.take(bv.len() as int)[i as int] != bv[i as int]);
            return false;
        }
        i = i + 1;
    }
    assert(pv.take(bv.len() as int) =~= bv);
    true
}

/// Where a Kimi Code path named by a caller may be read: an absolute path of a
/// directory that is not a symlink, whose canonical form lies in the canonical
/// sessions root. The refusals come in that order, after the failure to resolve the
/// root and then the path.
pub open spec fn kimi_path_check(
    label: Seq<char>,
    is_absolute: bool,
    is_symlink: bool,
    is_dir: bool,
    root: Result<Seq<Seq<char>>, Seq<char>>,
    target: Result<Seq<Seq<char>>, Seq<char>>,
) -> Result<(), Seq<char>> {
    if !is_absolute {
        Err("Kimi Code "@ + label + " path must be absolute"@)
    } else if is_symlink || !is_dir {
        Err("Kimi Code "@ + label + " path is not a directory"@)
    } else {
        match root {
            Err(e) => Err("Failed to resolve Kimi Code sessions root: "@ + e),
            Ok(r) => match target {
                Err(e) => Err("Failed to resolve Kimi Code "@ + label + " path: "@ + e),
                Ok(t) => if starts_with_components(t, r) {
                    Ok(())
                } else {
                    Err("Kimi Code "@ + label + " path is outside the sessions directory"@)
                },
            },
        }
    }
}

/// The check of a Kimi Code workspace or session path (see `kimi_path_check`): the
/// caller passes the path's kind, and the canonical components of the sessions root
/// and of the path, or the errors resolving them.
pub fn check_kimi_path(
    label: &str,
    is_absolute: bool,
    is_symlink: bool,
    is_dir: bool,
    root: &Result<Vec<String>, String>,
    target: &Result<Vec<String>, String>,
) -> (r: Result<(), String>)
    ensures
        match r {
            Ok(()) => kimi_path_check(label@, is_absolute, is_symlink, is_dir, resolved_view(*root), resolved_view(*target)) is Ok,
            Err(e) => kimi_path_check(label@, is_absolute, is_symlink, is_dir, resolved_view(*root), resolved_view(*target))
                == Err::<(), Seq<char>>(e@),
        },
{
    if !is_absolute {
        let a = concat("Kimi Code ", label);
        return Err(concat(a.as_str(), " path must be absolute"));
    }
    if is_symlink || !is_dir {
        let a = concat("Kimi Code ", label);
        return Err(concat(a.as_str(), " path is not a directory"));
    }
    let r = match root {
        Ok(r) => r,
        Err(e) => {
            return Err(concat("Failed to resolve Kimi Code sessions root: ", e.as_str()));
        },
    };
    let t = match target {
        Ok(t) => t,
        Err(e) => {
            let a = concat("Failed to resolve Kimi Code ", label);
            let b = concat(a.as_str(), " path: ");
            return Err(concat(b.as_str(), e.as_str()));
        },
    };
    if has_leading_components(t, r) {
        Ok(())
    } else {
        let a = concat("Kimi Code ", label);
        Err(concat(a.as_str(), " path is outside the sessions directory"))
    }
}

/// Where a Grok project directory named by a caller may be read: a directory that is
/// not a symlink, whose canonical form lies in the sessions directory of the
/// canonical base path and, with the base path and the project path resolved once
/// more, in the base path itself. Failures to resolve come in the order the paths are
/// resolved.
pub open spec fn grok_project_check(
    is_symlink: bool,
    is_dir: bool,
    base: Result<Seq<Seq<char>>, Seq<char>>,
    sessions: Seq<Seq<char>>,
    target: Result<Seq<Seq<char>>, Seq<char>>,
    base_again: Result<Seq<Seq<char>>, Seq<char>>,
    target_again: Result<Seq<Seq<char>>, Seq<char>>,
) -> Result<(), Seq<char>> {
    if is_symlink || !is_dir {
        Err("Grok project path is not a directory"@)
    } else {
        match base {
            Err(e) => Err("Failed to resolve Grok base path: "@ + e),
            Ok(_) => match target {
                Err(e) => Err("Failed to resolve Grok project path: "@ + e),
                Ok(t) => if !starts_with_components(t, sessions) {
                    Err("Grok project path is outside Grok sessions directory"@)
                } else {
                    match base_again {
                        Err(e) => Err("Failed to resolve Grok base path: "@ + e),
                        Ok(b) => match target_again {
                            Err(e) => Err("Failed to resolve path: "@ + e),
                            Ok(t2) => if starts_with_components(t2, b) {
                                Ok(())
                            } else {
                                Err("Grok project path is outside Grok base path"@)
                            },
                        },
                    }
                },
            },
        }
    }
}

/// The check of a Grok project directory (see `grok_project_check`): the caller
/// passes the directory's kind, the canonical components of the base path, of its
/// sessions directory and of the project path, then those of the base path and the
/// project path resolved once more, or the errors resolving them.
pub fn check_grok_project(
    is_symlink: bool,
    is_dir: bool,
    base: &Result<Vec<String>, String>,
    sessions: &Vec<String>,
    target: &Result<Vec<String>, String>,
    base_again: &Result<Vec<String>, String>,
    target_again: &Result<Vec<String>, String>,
) -> (r: Result<(), String>)
    ensures
        match r {
            Ok(()) => grok_project_check(is_symlink, is_dir, resolved_view(*base), components_view(sessions@),
                resolved_view(*target), resolved_view(*base_again), resolved_view(*target_again)) is Ok,
            Err(e) => grok_project_check(is_symlink, is_dir, resolved_view(*base), components_view(sessions@),
                resolved_view(*target), resolved_view(*base_again), resolved_view(*target_again)) == Err::<(), Seq<char>>(e@),
        },
{
    if is_symlink || !is_dir {
        return Err(own("Grok project path is not a directory"));
    }
    match base {
        Ok(_) => {},
        Err(e) => {
            return Err(concat("Failed to resolve Grok base path: ", e.as_str()));
        },
    }
    let t = match target {
        Ok(t) => t,
        Err(e) => {
            return Err(concat("Failed to resolve Grok project path: ", e.as_str()));
        },
    };
    if !has_leading_components(t, sessions) {
        return Err(own("Grok project path is outside Grok sessions directory"));
    }
    let b = match base_again {
        Ok(b) => b,
        Err(e) => {
            return Err(concat("Failed to resolve Grok base path: ", e.as_str()));
        },
    };
    let t2 = match target_again {
        Ok(t2) => t2,
        Err(e) => {
            return Err(concat("Failed to resolve path: ", e.as_str()));
        },
    };
    if has_leading_components(t2, b) {
        Ok(())
    } else {
        Err(own("Grok project path is outside Grok base path"))
    }
}

/// Where a Grok session directory named by a caller may be read: once the base path
/// resolves, the session path is absolute and its canonical form lies in the canonical
/// base path, and it is a directory that is not a symlink.
pub open spec fn grok_session_check(
    base: Result<Seq<Seq<char>>, Seq<char>>,
    is_absolute: bool,
    target: Result<Seq<Seq<char>>, Seq<char>>,
    is_symlink: bool,
    is_dir: bool,
) -> Result<(), Seq<char>> {
    match base {
        Err(e) => Err("Failed to resolve Grok base path: "@ + e),
        Ok(_) if !is_absolute => Err("Grok session path is outside Grok base path"@),
        Ok(b) => match target {
            Err(e) => Err("Failed to resolve path: "@ + e),
            Ok(t) => if !starts_with_components(t, b) {
                Err("Grok session path is outside Grok base path"@)
            } else if is_symlink || !is_dir {
                Err("Grok session path is not a directory"@)
            } else {
                Ok(())
            },
        },
    }
}

/// The check of a Grok session directory (see `grok_session_check`).
pub fn check_grok_session(
    base: &Result<Vec<String>, String>,
    is_absolute: bool,
    target: &Result<Vec<String>, String>,
    is_symlink: bool,
    is_dir: bool,
) -> (r: Result<(), String>)
    ensures
        match r {
            Ok(()) => grok_session_check(resolved_view(*base), is_absolute, resolved_view(*target), is_symlink, is_dir) is Ok,
            Err(e) => grok_session_check(resolved_view(*base), is_absolute, resolved_view(*target), is_symlink, is_dir)
                == Err::<(), Seq<char>>(e@),
        },
{
    let b = match base {
        Ok(b) => b,
        Err(e) => {
            return Err(concat("Failed to resolve Grok base path: ", e.as_str()));
        },
    };
    if !is_absolute {
        return Err(own("Grok session path is outside Grok base path"));
    }
    let t = match target {
        Ok(t) => t,
        Err(e) => {
            return Err(concat("Failed to resolve path: ", e.as_str()));
        },
    };
    if !has_leading_components(t, b) {
        return Err(own("Grok session path is outside Grok base path"));
    }
    if is_symlink || !is_dir {
        return Err(own("Grok session path is not a directory"));
    }
    Ok(())
}

} // verus!
