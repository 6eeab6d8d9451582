use cleanroom::senv::{Senv, SenvError};

#[test]
fn paths_of_an_environment() {
    let env = Senv::new_xdg("work", "/home/u/.config/cleanroom/", "/home/u/.local/share/cleanroom");
    assert_eq!(env.name, "work");
    assert_eq!(env.files.cfg_dir, "/home/u/.config/cleanroom/work");
    assert_eq!(env.files.cfg_file, "/home/u/.config/cleanroom/work/config.toml");
    assert_eq!(env.files.data_dir, "/home/u/.local/share/cleanroom/work");
    assert_eq!(env.files.bin_dir, "/home/u/.local/share/cleanroom/work/bin");
    assert_eq!(env.rc_file(), "/home/u/.config/cleanroom/work/rc.sh");
}

#[test]
fn valid_when_everything_exists() {
    let env = Senv::new_xdg("e", "/c", "/d");
    assert_eq!(env.is_valid(true, true, true, true), Ok(()));
}

#[test]
fn first_missing_path_is_reported() {
    let env = Senv::new_xdg("e", "/c", "/d");
    assert_eq!(
        env.is_valid(false, false, true, true),
        Err(SenvError::MissingDir("e".to_string(), "/c/e".to_string()))
    );
    assert_eq!(
        env.is_valid(true, false, false, true),
        Err(SenvError::MissingFile("e".to_string(), "/c/e/config.toml".to_string()))
    );
    assert_eq!(
        env.is_valid(true, true, false, false),
        Err(SenvError::MissingDir("e".to_string(), "/d/e".to_string()))
    );
    assert_eq!(
        env.is_valid(true, true, true, false),
        Err(SenvError::MissingDir("e".to_string(), "/d/e/bin".to_string()))
    );
}
