use json_env::shell::{shell_from_path, ShellType};

#[test]
fn shell_is_detected_from_its_path() {
    assert_eq!(shell_from_path("/bin/bash"), Some(ShellType::Bash));
    assert_eq!(shell_from_path("/usr/bin/zsh"), Some(ShellType::Zsh));
    assert_eq!(shell_from_path("/usr/local/bin/fish"), Some(ShellType::Fish));
    assert_eq!(shell_from_path("bash"), Some(ShellType::Bash));
}

#[test]
fn unknown_shell_is_rejected() {
    assert_eq!(shell_from_path("/bin/sh"), None);
    assert_eq!(shell_from_path("/bin/tcsh"), None);
    assert_eq!(shell_from_path(""), None);
    assert_eq!(shell_from_path("/bin/bash/"), None);
}

#[test]
fn shell_names_match_their_executables() {
    assert_eq!(ShellType::Bash.name(), "bash");
    assert_eq!(ShellType::Zsh.name(), "zsh");
    assert_eq!(ShellType::Fish.name(), "fish");
}

#[test]
fn profile_paths_are_shell_specific() {
    assert_eq!(ShellType::Bash.profile_path(), ".bashrc");
    assert_eq!(ShellType::Zsh.profile_path(), ".zshrc");
    assert_eq!(ShellType::Fish.profile_path(), ".config/fish/config.fish");
}

#[test]
fn include_commands_source_the_hook() {
    assert_eq!(ShellType::Bash.include_command(), "\neval \"$(json_env --init bash)\"\n");
    assert_eq!(ShellType::Zsh.include_command(), "\neval \"$(json_env --init zsh)\"\n");
    assert_eq!(ShellType::Fish.include_command(), "\neval \"$(json_env --init fish)\"\n");
}
