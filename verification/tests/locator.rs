use json_env::locate::{candidate_paths, pick_first_existing};

#[test]
fn candidates_run_child_to_root() {
    let candidates = candidate_paths("/home/user/project");
    assert_eq!(
        candidates,
        vec![
            "/home/user/project/.env.json".to_string(),
            "/home/user/.env.json".to_string(),
            "/home/.env.json".to_string(),
            "/.env.json".to_string(),
        ]
    );
}

#[test]
fn root_directory_yields_one_candidate() {
    assert_eq!(candidate_paths(""), vec!["/.env.json".to_string()]);
    assert_eq!(candidate_paths("/"), vec!["/.env.json".to_string()]);
}

#[test]
fn nearest_existing_candidate_wins() {
    let paths = candidate_paths("/home/user/project");
    let both_exist = vec![true, true, false, false];
    assert_eq!(pick_first_existing(&both_exist), Some(0));
    assert_eq!(&paths[0], "/home/user/project/.env.json");
}

#[test]
fn parent_candidate_wins_only_when_nearer_ones_are_absent() {
    let paths = candidate_paths("/home/user/project");
    let only_parent = vec![false, true, false, false];
    assert_eq!(pick_first_existing(&only_parent), Some(1));
    assert_eq!(&paths[1], "/home/user/.env.json");
}

#[test]
fn no_existing_candidate_finds_nothing() {
    let paths = candidate_paths("/home/user");
    let none_exist = vec![false; paths.len()];
    assert_eq!(pick_first_existing(&none_exist), None);
}
