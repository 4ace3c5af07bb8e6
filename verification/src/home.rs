//! Resolving the data *home*, the directory holding `data/kjv.jsonl` and the
//! personal study folders. The candidates are tried in order:
//!
//!   1. an explicit environment override, honoured verbatim;
//!   2. the working directory, when it looks like a working tree;
//!   3. a home next to the executable;
//!   4. the per-user data directory of an installed app.
//!
//! Looking at the environment and the disk is the shell's work; which
//! candidate wins is decided here.

use vstd::prelude::*;

verus! {

/// Where a resolved home came from, for a status line or diagnostics.
#[derive(Debug, Clone, Copy, PartialEq, Eq, Structural)]
pub enum HomeKind {
    /// An explicit environment override.
    Env,
    /// The working directory is a working tree; run in place.
    Tree,
    /// A `data/` directory shipped next to the executable.
    ExeDir,
    /// The per-user data directory for an installed app.
    DataDir,
}

/// The label of each kind.
pub open spec fn home_label(k: HomeKind) -> Seq<char> {
    match k {
        HomeKind::Env => "environment override"@,
        HomeKind::Tree => "working tree"@,
        HomeKind::ExeDir => "app data (next to the executable)"@,
        HomeKind::DataDir => "user data directory"@,
    }
}

impl HomeKind {
    /// A friendly name for where the home came from.
    pub fn label(self) -> (r: &'static str)
        ensures
            r@ == home_label(self),
    {
        match self {
            HomeKind::Env => "environment override",
            HomeKind::Tree => "working tree",
            HomeKind::ExeDir => "app data (next to the executable)",
            HomeKind::DataDir => "user data directory",
        }
    }
}

/// The first index at which `s` holds, or `s.len()`.
pub open spec fn first_set(s: Seq<bool>) -> int
    decreases s.len(),
{
    if s.len() == 0 {
        0
    } else if s[0] {
        0
    } else {
        1 + first_set(s.drop_first())
    }
}

/// Which candidate becomes the home, and its index among those of its kind.
/// `overrides` says which override variables are set and not empty; `cwd`,
/// `exe` and `data` say which of those candidates look like a home (hold the
/// corpus marker), `None` where there is no such candidate.
pub open spec fn home_choice(
    overrides: Seq<bool>,
    cwd: Option<bool>,
    exe: Seq<bool>,
    data: Option<bool>,
) -> Option<(HomeKind, int)> {
    if first_set(overrides) < overrides.len() {
        Some((HomeKind::Env, first_set(overrides)))
    } else if cwd == Some(true) {
        Some((HomeKind::Tree, 0))
    } else if first_set(exe) < exe.len() {
        Some((HomeKind::ExeDir, first_set(exe)))
    } else if data == Some(true) {
        Some((HomeKind::DataDir, 0))
    } else {
        None
    }
}

proof fn lemma_first_set(s: Seq<bool>)
    ensures
        0 <= first_set(s) <= s.len(),
        first_set(s) < s.len() ==> s[first_set(s)],
        forall|i: int| 0 <= i < first_set(s) ==> !s[i],
    decreases s.len(),
{
    if s.len() > 0 && !s[0] {
        lemma_first_set(s.drop_first());
        assert forall|i: int| 0 <= i < first_set(s) implies !s[i] by {
            if i > 0 {
                assert(s[i] == s.drop_first()[i - 1]);
            }
        }
    }
}

fn first_set_in(s: &[bool]) -> (r: usize)
    ensures
        r == first_set(s@),
{
    let mut i: usize = 0;
    while i < s.len()
        invariant
            i <= s.len(),
            forall|j: int| 0 <= j < i ==> !s@[j],
        decreases s.len() - i,
    {
        if s[i] {
            proof {
                lemma_first_set(s@);
                lemma_first_set_is(s@, i as int);
            }
            return i;
        }
        i = i + 1;
    }
    proof {
        lemma_first_set(s@);
        lemma_first_set_is(s@, s.len() as int);
    }
    i
}

proof fn lemma_first_set_is(s: Seq<bool>, k: int)
    requires
        0 <= k <= s.len(),
        k < s.len() ==> s[k],
        forall|j: int| 0 <= j < k ==> !s[j],
    ensures
        first_set(s) == k,
    decreases s.len(),
{
    if s.len() > 0 && k > 0 {
        let t = s.drop_first();
        assert forall|j: int| 0 <= j < k - 1 implies !t[j] by {
            assert(t[j] == s[j + 1]);
        }
        lemma_first_set_is(t, k - 1);
    }
}

/// Pick the home among the candidates the shell looked at: the first set
/// override, else the working directory, else the first home beside the
/// executable, else the installed data directory. `None` means nothing was
/// found and no override was given.
pub fn choose_home(overrides: &[bool], cwd: Option<bool>, exe: &[bool], data: Option<bool>) -> (r: Option<
    (HomeKind, usize),
>)
    ensures
        match home_choice(overrides@, cwd, exe@, data) {
            Some((k, i)) => r == Some((k, i as usize)),
            None => r is None,
        },
{
    proof {
        lemma_first_set(overrides@);
        lemma_first_set(exe@);
    }
    let o = first_set_in(overrides);
    if o < overrides.len() {
        return Some((HomeKind::Env, o));
    }
    if cwd == Some(true) {
        return Some((HomeKind::Tree, 0));
    }
    let e = first_set_in(exe);
    if e < exe.len() {
        return Some((HomeKind::ExeDir, e));
    }
    if data == Some(true) {
        return Some((HomeKind::DataDir, 0));
    }
    None
}

} // verus!
