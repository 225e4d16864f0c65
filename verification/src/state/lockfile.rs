//! Which lockfile an install reads or writes.
use crate::text::{
    concat, first_replaced, head_before_last, replace_first, same_text, text_before_last, texts,
};
use vstd::prelude::*;

verus! {

/// The lockfile's name without its extension.
pub open spec fn lockfile_stem(basename: Seq<char>) -> Seq<char> {
    match head_before_last(basename, '.') {
        Some(s) => s,
        None => basename,
    }
}

/// The name that pnpm gives the preferred lockfile.
pub open spec fn pnpm_name(basename: Seq<char>, preferred: Seq<char>) -> Seq<char> {
    first_replaced(preferred, lockfile_stem(basename) + "."@, "pnpm-lock."@)
}

/// The lockfiles that other package managers write.
pub open spec fn foreign_names() -> Seq<Seq<char>> {
    seq!["pnpm-lock.yaml"@, "bun.lock"@, "yarn.lock"@, "npm-shrinkwrap.json"@, "package-lock.json"@]
}

/// The names under which a lockfile is looked for, in order.
///
/// The branch's own file comes first where there is one, then the base file,
/// so that a branch whose file has not been written yet finds the base; then
/// pnpm's names for the same two, and the files of other package managers.
pub open spec fn lockfile_names(basename: Seq<char>, preferred: Seq<char>) -> Seq<Seq<char>> {
    let own = if preferred != basename {
        seq![preferred, basename]
    } else {
        seq![preferred]
    };
    let pnpm = if pnpm_name(basename, preferred) != preferred {
        seq![pnpm_name(basename, preferred)]
    } else {
        Seq::empty()
    };
    own + pnpm + foreign_names()
}

/// The names under which a lockfile is looked for, in order.
pub fn lockfile_candidates(basename: &str, preferred: &str) -> (r: Vec<String>)
    ensures
        texts(r@) == lockfile_names(basename@, preferred@),
        r@.len() > 0,
        r@[0]@ == preferred@,
{
    let stem = match text_before_last(basename, '.') {
        Some(s) => s,
        None => basename.to_owned(),
    };
    let needle = concat(stem.as_str(), ".");
    let pnpm = replace_first(preferred, needle.as_str(), "pnpm-lock.");
    let mut out: Vec<String> = Vec::new();
    out.push(preferred.to_owned());
    if !same_text(preferred, basename) {
        out.push(basename.to_owned());
    }
    if !same_text(pnpm.as_str(), preferred) {
        out.push(pnpm);
    }
    out.push("pnpm-lock.yaml".to_owned());
    out.push("bun.lock".to_owned());
    out.push("yarn.lock".to_owned());
    out.push("npm-shrinkwrap.json".to_owned());
    out.push("package-lock.json".to_owned());
    proof {
        assert(texts(out@) =~= lockfile_names(basename@, preferred@));
    }
    out
}

/// The lockfile that is in use: the first of the candidates that exists.
pub open spec fn active_index(exists: Seq<bool>, i: int) -> Option<int>
    decreases exists.len() - i,
{
    if i >= exists.len() {
        None
    } else if exists[i] {
        Some(i)
    } else {
        active_index(exists, i + 1)
    }
}

/// Which candidate is the lockfile in use, given which of them exist.
pub fn active_lockfile(exists: &Vec<bool>) -> (r: Option<usize>)
    ensures
        match r {
            Some(i) => active_index(exists@, 0) == Some(i as int) && i < exists@.len(),
            None => active_index(exists@, 0) is None,
        },
{
    let mut i: usize = 0;
    while i < exists.len()
        invariant
            i <= exists@.len(),
            active_index(exists@, 0) == active_index(exists@, i as int),
        decreases exists.len() - i,
    {
        if exists[i] {
            return Some(i);
        }
        i += 1;
    }
    None
}

/// The preferred lockfile is in use wherever it exists.
pub proof fn law_preferred_lockfile_wins(exists: Seq<bool>)
    requires
        exists.len() > 0,
        exists[0],
    ensures
        active_index(exists, 0) == Some(0int),
{
}

/// Where the branch's own lockfile does not exist the base file is used before
/// those of other package managers.
pub proof fn law_base_lockfile_is_the_fallback(basename: Seq<char>, preferred: Seq<char>, exists: Seq<bool>)
    requires
        preferred != basename,
        exists.len() == lockfile_names(basename, preferred).len(),
        !exists[0],
        exists[1],
    ensures
        lockfile_names(basename, preferred)[1] == basename,
        active_index(exists, 0) == Some(1int),
{
    reveal_with_fuel(active_index, 2);
}

} // verus!
