//! Locating the nearest configuration file.
//!
//! From a starting directory, the candidate file paths run child to root:
//! the file in the starting directory itself, then the file in each
//! ancestor directory in turn. The nearest existing candidate wins, so a
//! configuration file in the working directory always shadows one higher in
//! the tree. No subdirectory is ever searched.

use vstd::prelude::*;

verus! {

/// The fixed name of the configuration file, with its leading separator.
pub open spec fn env_file_suffix() -> Seq<char> {
    "/.env.json"@
}

/// The directory above `dir`: the characters before the last separator,
/// empty when `dir` has no separator.
pub open spec fn parent_of(dir: Seq<char>) -> Seq<char>
    decreases dir.len(),
{
    if dir.len() == 0 {
        dir
    } else if dir.last() == '/' {
        dir.drop_last()
    } else {
        parent_of(dir.drop_last())
    }
}

/// The directory above is strictly shorter.
pub proof fn lemma_parent_of_shorter(dir: Seq<char>)
    ensures
        dir.len() > 0 ==> parent_of(dir).len() < dir.len(),
    decreases dir.len(),
{
    if dir.len() > 0 {
        if dir.last() == '/' {
            assert(parent_of(dir) == dir.drop_last());
        } else {
            lemma_parent_of_shorter(dir.drop_last());
            assert(parent_of(dir) == parent_of(dir.drop_last()));
            if dir.drop_last().len() == 0 {
                assert(parent_of(dir.drop_last()).len() == 0);
            }
        }
    }
}

/// Whether `dir` names the filesystem root, where the walk ends.
pub open spec fn is_root_dir(dir: Seq<char>) -> bool {
    dir.len() == 0 || dir == seq!['/']
}

/// The candidate configuration file paths from `dir`, nearest first, down
/// to the root. The root's own candidate carries a single separator.
pub open spec fn env_file_candidates(dir: Seq<char>) -> Seq<Seq<char>>
    decreases dir.len(),
    via env_file_candidates_decreases
{
    if is_root_dir(dir) {
        seq![env_file_suffix()]
    } else {
        seq![dir + env_file_suffix()] + env_file_candidates(parent_of(dir))
    }
}

#[via_fn]
proof fn env_file_candidates_decreases(dir: Seq<char>) {
    lemma_parent_of_shorter(dir);
}

/// Stripping everything from the last separator on gives the parent.
proof fn lemma_parent_take(s: Seq<char>, k: int)
    requires
        0 <= k < s.len(),
        s[k] == '/',
        forall|j: int| k < j < s.len() ==> s[j] != '/',
    ensures
        parent_of(s) == s.take(k),
    decreases s.len(),
{
    if s.len() - 1 == k {
        assert(s.drop_last() =~= s.take(k));
    } else {
        assert(s.last() != '/');
        lemma_parent_take(s.drop_last(), k);
        assert(s.drop_last().take(k) =~= s.take(k));
    }
}

/// A directory without separators has the empty parent.
proof fn lemma_parent_empty(s: Seq<char>)
    requires
        forall|j: int| 0 <= j < s.len() ==> s[j] != '/',
    ensures
        parent_of(s) == Seq::<char>::empty(),
    decreases s.len(),
{
    if s.len() > 0 {
        lemma_parent_empty(s.drop_last());
    }
}

/// The directory above `dir`, as text.
fn parent_dir(dir: &str) -> (r: String)
    ensures
        r@ == parent_of(dir@),
{
    let n = dir.unicode_len();
    let mut k: usize = n;
    while k > 0
        invariant
            k <= n,
            n == dir@.len(),
            forall|j: int| k <= j < n ==> dir@[j] != '/',
        decreases k,
    {
        if dir.get_char(k - 1) == '/' {
            proof {
                lemma_parent_take(dir@, k - 1);
            }
            let parent = dir.substring_char(0, k - 1);
            return String::from_str(parent);
        }
        k = k - 1;
    }
    proof {
        lemma_parent_empty(dir@);
    }
    String::new()
}

/// Returns true when `dir` names the filesystem root.
fn dir_is_root(dir: &str) -> (r: bool)
    ensures
        r == is_root_dir(dir@),
{
    let n = dir.unicode_len();
    if n == 0 {
        true
    } else if n == 1 && dir.get_char(0) == '/' {
        proof {
            assert(dir@ =~= seq!['/']);
        }
        true
    } else {
        proof {
            if dir@ == seq!['/'] {
                assert(dir@.len() == 1);
                assert(dir@[0] == '/');
            }
        }
        false
    }
}

/// The candidate configuration file paths from `start_dir`, nearest first.
pub fn candidate_paths(start_dir: &str) -> (r: Vec<String>)
    ensures
        r@.len() == env_file_candidates(start_dir@).len(),
        forall|i: int|
            0 <= i < r@.len() ==> #[trigger] r@[i]@ == env_file_candidates(start_dir@)[i],
        r@.len() >= 1,
        !is_root_dir(start_dir@) ==> r@[0]@ == start_dir@ + env_file_suffix(),
{
    let ghost whole = env_file_candidates(start_dir@);
    let mut out: Vec<String> = Vec::new();
    let mut dir = String::from_str(start_dir);
    loop
        invariant_except_break
            whole =~= whole.take(out@.len() as int) + env_file_candidates(dir@),
        invariant
            env_file_candidates(start_dir@) == whole,
            out@.len() <= whole.len(),
            forall|i: int| 0 <= i < out@.len() ==> #[trigger] out@[i]@ == whole[i],
        ensures
            out@.len() == whole.len(),
            forall|i: int| 0 <= i < out@.len() ==> #[trigger] out@[i]@ == whole[i],
        decreases dir@.len(),
    {
        if dir_is_root(dir.as_str()) {
            let root_candidate = String::from_str("/.env.json");
            proof {
                assert(env_file_candidates(dir@) == seq![env_file_suffix()]);
                assert(whole[out@.len() as int] == root_candidate@);
            }
            out.push(root_candidate);
            proof {
                assert(whole =~= whole.take(out@.len() as int));
            }
            break ;
        }
        let mut candidate = dir.clone();
        candidate.append("/.env.json");
        proof {
            assert(candidate@ == dir@ + env_file_suffix());
            assert(env_file_candidates(dir@)[0] == dir@ + env_file_suffix());
            assert(whole[out@.len() as int] == candidate@);
        }
        out.push(candidate);
        let ghost prev_dir = dir@;
        let next = parent_dir(dir.as_str());
        dir = next;
        proof {
            lemma_parent_of_shorter(prev_dir);
            assert(env_file_candidates(prev_dir) == seq![prev_dir + env_file_suffix()]
                + env_file_candidates(dir@));
            assert(whole =~= whole.take(out@.len() as int) + env_file_candidates(dir@));
        }
    }
    proof {
        if !is_root_dir(start_dir@) {
            assert(whole[0] == start_dir@ + env_file_suffix());
        }
    }
    out
}

/// The index of the first set flag.
pub open spec fn first_set(flags: Seq<bool>) -> Option<int>
    decreases flags.len(),
{
    if flags.len() == 0 {
        None
    } else if flags[0] {
        Some(0int)
    } else {
        match first_set(flags.drop_first()) {
            Some(i) => Some(i + 1),
            None => None,
        }
    }
}

/// No flag among the first `k` is set exactly when the first set flag, if
/// any, stands at `k` or later.
proof fn lemma_first_set_from(flags: Seq<bool>, k: int)
    requires
        0 <= k <= flags.len(),
        forall|j: int| 0 <= j < k ==> !flags[j],
    ensures
        k < flags.len() && flags[k] ==> first_set(flags) == Some(k),
        k == flags.len() ==> first_set(flags) is None,
    decreases k,
{
    if k > 0 {
        assert(!flags[0]);
        lemma_first_set_from(flags.drop_first(), k - 1);
        assert(flags.drop_first().len() == flags.len() - 1);
        if k < flags.len() && flags[k] {
            assert(flags.drop_first()[k - 1] == flags[k]);
        }
    }
}

/// Picks the nearest existing candidate: the first index whose existence
/// flag is set, `None` when no candidate exists.
pub fn pick_first_existing(exists_flags: &Vec<bool>) -> (r: Option<usize>)
    ensures
        match r {
            Some(i) => i < exists_flags@.len() && first_set(exists_flags@) == Some(i as int),
            None => first_set(exists_flags@) is None,
        },
{
    let mut i: usize = 0;
    while i < exists_flags.len()
        invariant
            i <= exists_flags@.len(),
            forall|j: int| 0 <= j < i ==> !exists_flags@[j],
        decreases exists_flags@.len() - i,
    {
        if exists_flags[i] {
            proof {
                lemma_first_set_from(exists_flags@, i as int);
            }
            return Some(i);
        }
        i = i + 1;
    }
    proof {
        lemma_first_set_from(exists_flags@, exists_flags@.len() as int);
    }
    None
}

/// A configuration file in the starting directory itself is preferred to
/// one in any ancestor directory: whenever the nearest candidate exists,
/// it is the one chosen, and it is the starting directory's own file.
pub proof fn lemma_nearest_preferred(dir: Seq<char>, flags: Seq<bool>)
    requires
        flags.len() >= 1,
        flags[0],
    ensures
        first_set(flags) == Some(0int),
        !is_root_dir(dir) ==> env_file_candidates(dir)[0] == dir + env_file_suffix(),
        is_root_dir(dir) ==> env_file_candidates(dir)[0] == env_file_suffix(),
{
}

} // verus!
