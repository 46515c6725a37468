use slickcmd::options::{Options, DEFAULT_MAX_RECENT_DIRS};
use slickcmd::text::{eq_ignore_case, parse_u64_chars, fmt_dec_u64_pad};
use slickcmd::dir_man::parent_dir;

#[test]
fn test_options_defaults_and_setters() {
    let mut options = Options::init();
    assert_eq!(options.max_recent_dirs(), DEFAULT_MAX_RECENT_DIRS);
    assert!(options.cd_completion());
    assert!(options.run_on_startup());
    assert!(!options.show_clock());

    options.set_max_recent_dirs(20);
    options.set_cd_completion(false);
    options.set_run_on_startup(false);
    options.set_show_clock(true);
    assert_eq!(options.max_recent_dirs(), 20);
    assert!(!options.cd_completion());
    assert!(!options.run_on_startup());
    assert!(options.show_clock());
}

#[test]
fn test_eq_ignore_case() {
    assert!(eq_ignore_case("PowerShell.EXE", "powershell.exe"));
    assert!(!eq_ignore_case("cmd.exe", "cmd.com"));
    assert!(eq_ignore_case("", ""));
}

#[test]
fn test_parent_dir() {
    assert_eq!(parent_dir(r"C:\Users\John\"), r"C:\Users\");
    assert_eq!(parent_dir(r"C:\Users\John"), r"C:\Users\");
    assert_eq!(parent_dir(r"C:\"), "");
    assert_eq!(parent_dir(""), "");
}

#[test]
fn test_number_helpers() {
    let digits: Vec<char> = "12345".chars().collect();
    assert_eq!(parse_u64_chars(&digits), Some(12345));
    let bad: Vec<char> = "12a45".chars().collect();
    assert_eq!(parse_u64_chars(&bad), None);
    let padded: String = fmt_dec_u64_pad(42, 6).into_iter().collect();
    assert_eq!(padded, "000042");
}
