use offcode::sandbox::check_command_paths;

const CWD: &str = "/home/user/project";

#[test]
fn sandbox_blocks_traversal() {
    assert!(check_command_paths("cat ../../etc/passwd", CWD).is_err());
}

#[test]
fn sandbox_blocks_absolute_outside_cwd() {
    assert!(check_command_paths("cat /etc/passwd", CWD).is_err());
}

#[test]
fn sandbox_blocks_home_dir() {
    assert!(check_command_paths("ls ~/secret", CWD).is_err());
}

#[test]
fn sandbox_allows_system_binaries() {
    assert!(check_command_paths("/usr/bin/grep -r pattern .", CWD).is_ok());
}

#[test]
fn sandbox_allows_relative_paths() {
    assert!(check_command_paths("ls -la src/", CWD).is_ok());
    assert!(check_command_paths("cargo build", CWD).is_ok());
}

#[test]
fn sandbox_names_the_refused_token() {
    assert_eq!(
        check_command_paths("cat ../x", CWD),
        Err("'../x' contains '..' (directory traversal)".to_string())
    );
    assert_eq!(
        check_command_paths("cat /etc/passwd", CWD),
        Err("'/etc/passwd' is outside the current directory".to_string())
    );
    assert_eq!(
        check_command_paths("ls ~/secret", CWD),
        Err("'~/secret' references the home directory".to_string())
    );
}

#[test]
fn sandbox_allows_paths_under_cwd_and_options() {
    assert!(check_command_paths("cat /home/user/project/src/main.rs", CWD).is_ok());
    assert!(check_command_paths("grep --exclude=../x foo", CWD).is_ok());
    assert!(check_command_paths("cat '/etc/passwd'", CWD).is_err());
    assert!(check_command_paths("echo hi>/tmp/out", CWD).is_err());
}
