//! The closed set of shells the hook installer knows, with each shell's
//! profile file and the line that sources the hook.
//!
//! The shell is detected from the process's shell path: its file name picks
//! the variant. Everything shell-specific is data on the variant, so adding
//! a shell is a data addition, not a new code path.

use vstd::prelude::*;

verus! {

/// A supported shell.
#[derive(Clone, Copy, Debug, PartialEq, Eq, Structural)]
pub enum ShellType {
    Bash,
    Zsh,
    Fish,
}

/// The name a shell goes by, as its executable is called.
pub open spec fn shell_name(s: ShellType) -> Seq<char> {
    match s {
        ShellType::Bash => "bash"@,
        ShellType::Zsh => "zsh"@,
        ShellType::Fish => "fish"@,
    }
}

/// The shell's profile file, relative to the home directory.
pub open spec fn shell_profile(s: ShellType) -> Seq<char> {
    match s {
        ShellType::Bash => ".bashrc"@,
        ShellType::Zsh => ".zshrc"@,
        ShellType::Fish => ".config/fish/config.fish"@,
    }
}

/// The line appended to the profile file to source the hook.
pub open spec fn shell_include_command(s: ShellType) -> Seq<char> {
    match s {
        ShellType::Bash => "\neval \"$(json_env --init bash)\"\n"@,
        ShellType::Zsh => "\neval \"$(json_env --init zsh)\"\n"@,
        ShellType::Fish => "\neval \"$(json_env --init fish)\"\n"@,
    }
}

impl ShellType {
    /// The name the shell goes by.
    pub fn name(&self) -> (r: String)
        ensures
            r@ == shell_name(*self),
    {
        match self {
            ShellType::Bash => String::from_str("bash"),
            ShellType::Zsh => String::from_str("zsh"),
            ShellType::Fish => String::from_str("fish"),
        }
    }

    /// The shell's profile file, relative to the home directory.
    pub fn profile_path(&self) -> (r: String)
        ensures
            r@ == shell_profile(*self),
    {
        match self {
            ShellType::Bash => String::from_str(".bashrc"),
            ShellType::Zsh => String::from_str(".zshrc"),
            ShellType::Fish => String::from_str(".config/fish/config.fish"),
        }
    }

    /// The shell's profile file under the home directory `home`.
    pub fn profile_file_path(&self, home: &str) -> (r: String)
        ensures
            r@ == home@ + "/"@ + shell_profile(*self),
    {
        let mut out = String::from_str(home);
        out.append("/");
        let profile = self.profile_path();
        out.append(profile.as_str());
        out
    }

    /// The line appended to the profile file to source the hook.
    pub fn include_command(&self) -> (r: String)
        ensures
            r@ == shell_include_command(*self),
    {
        match self {
            ShellType::Bash => String::from_str("\neval \"$(json_env --init bash)\"\n"),
            ShellType::Zsh => String::from_str("\neval \"$(json_env --init zsh)\"\n"),
            ShellType::Fish => String::from_str("\neval \"$(json_env --init fish)\"\n"),
        }
    }
}

/// The file name at the end of a path: the characters after the last
/// separator, the whole text when it has none.
pub open spec fn base_name(s: Seq<char>) -> Seq<char>
    decreases s.len(),
{
    if s.len() == 0 {
        s
    } else if s.last() == '/' {
        Seq::empty()
    } else {
        base_name(s.drop_last()).push(s.last())
    }
}

/// The shell a file name picks, if it is a supported shell's name.
pub open spec fn shell_of_name(name: Seq<char>) -> Option<ShellType> {
    if name == shell_name(ShellType::Bash) {
        Some(ShellType::Bash)
    } else if name == shell_name(ShellType::Zsh) {
        Some(ShellType::Zsh)
    } else if name == shell_name(ShellType::Fish) {
        Some(ShellType::Fish)
    } else {
        None
    }
}

/// Past the last separator stand the base name's characters.
proof fn lemma_base_name_skip(s: Seq<char>, k: int)
    requires
        1 <= k <= s.len(),
        s[k - 1] == '/',
        forall|j: int| k <= j < s.len() ==> s[j] != '/',
    ensures
        base_name(s) == s.skip(k),
    decreases s.len(),
{
    if s.len() == k {
        assert(s.last() == '/');
        assert(s.skip(k) =~= Seq::<char>::empty());
    } else {
        assert(s.last() != '/');
        lemma_base_name_skip(s.drop_last(), k);
        assert(s.drop_last().skip(k) =~= s.skip(k).drop_last());
        assert(s.skip(k).len() > 0);
        assert(s.skip(k).last() == s.last());
        assert(base_name(s) =~= s.skip(k));
    }
}

/// A path without separators is its own base name.
proof fn lemma_base_name_whole(s: Seq<char>)
    requires
        forall|j: int| 0 <= j < s.len() ==> s[j] != '/',
    ensures
        base_name(s) == s,
    decreases s.len(),
{
    if s.len() > 0 {
        lemma_base_name_whole(s.drop_last());
        assert(base_name(s) =~= s);
    }
}

/// The file name at the end of `path`, as text.
fn base_name_of(path: &str) -> (r: String)
    ensures
        r@ == base_name(path@),
{
    let n = path.unicode_len();
    let mut k: usize = n;
    while k > 0
        invariant
            k <= n,
            n == path@.len(),
            forall|j: int| k <= j < n ==> path@[j] != '/',
        decreases k,
    {
        if path.get_char(k - 1) == '/' {
            proof {
                lemma_base_name_skip(path@, k as int);
            }
            let rest = path.substring_char(k, n);
            proof {
                assert(rest@ =~= path@.skip(k as int));
            }
            return String::from_str(rest);
        }
        k = k - 1;
    }
    proof {
        lemma_base_name_whole(path@);
    }
    String::from_str(path)
}

/// Detects the shell from the process's shell path: the path's file name
/// must be a supported shell's name.
pub fn shell_from_path(shell_path: &str) -> (r: Option<ShellType>)
    ensures
        r == shell_of_name(base_name(shell_path@)),
{
    let base = base_name_of(shell_path);
    if base == String::from_str("bash") {
        Some(ShellType::Bash)
    } else if base == String::from_str("zsh") {
        Some(ShellType::Zsh)
    } else if base == String::from_str("fish") {
        Some(ShellType::Fish)
    } else {
        None
    }
}

} // verus!
