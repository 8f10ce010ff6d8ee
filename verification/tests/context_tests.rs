use rpk::context::{
    labelled, log_error, log_error_as_warning, prettyify_error, Context, Output, Verbosity,
};

fn context(verbosity: Verbosity, no_color: bool) -> Context {
    let mut ctx = Context::default();
    ctx.output = Output { verbosity, no_color };
    ctx
}

fn chain(items: &[&str]) -> Vec<String> {
    items.iter().map(|s| s.to_string()).collect()
}

#[test]
fn defaults() {
    assert_eq!(Verbosity::default(), Verbosity::Normal);
    assert_eq!(Output::default(), Output { verbosity: Verbosity::Normal, no_color: false });
    let ctx = Context::default();
    assert_eq!(ctx.version, "");
    assert_eq!(ctx.lock_file, "");
    assert_eq!(ctx.verbosity(), Verbosity::Normal);
}

#[test]
fn verbosity_levels() {
    assert!(Verbosity::Quiet < Verbosity::Normal);
    assert!(Verbosity::Normal < Verbosity::Verbose);
    assert!(Verbosity::Verbose.at_least(Verbosity::Normal));
    assert!(Verbosity::Normal.at_least(Verbosity::Normal));
    assert!(!Verbosity::Quiet.at_least(Verbosity::Normal));
    assert!(!Verbosity::Normal.at_least(Verbosity::Verbose));
    assert!(Verbosity::Quiet.at_least(Verbosity::Quiet));
    assert!(Verbosity::Verbose.at_least(Verbosity::Verbose));
}

#[test]
fn cloned_context_is_the_same() {
    let mut ctx = context(Verbosity::Verbose, true);
    ctx.version = "1.2.3".to_owned();
    ctx.bin_dir = "/home/u/.local/bin".to_owned();
    let copy = ctx.clone();
    assert_eq!(copy.version, "1.2.3");
    assert_eq!(copy.bin_dir, "/home/u/.local/bin");
    assert_eq!(copy.output, ctx.output);
}

#[test]
fn header_without_colour_is_in_capitals() {
    let ctx = context(Verbosity::Normal, true);
    assert_eq!(ctx.log_header("Syncing", "3 packages"), Some("SYNCING 3 packages".to_owned()));
    assert_eq!(
        ctx.log_verbose_header("Syncing", "3 packages"),
        None
    );
}

#[test]
fn header_in_colour_is_bold_magenta() {
    yansi::enable();
    let ctx = context(Verbosity::Verbose, false);
    let line = "\u{1b}[1;35mSyncing\u{1b}[0m 3 packages".to_owned();
    assert_eq!(ctx.log_header("Syncing", "3 packages"), Some(line.clone()));
    assert_eq!(ctx.log_verbose_header("Syncing", "3 packages"), Some(line));
}

#[test]
fn quiet_run_reports_nothing() {
    let ctx = context(Verbosity::Quiet, true);
    assert_eq!(ctx.log_header("Syncing", "x"), None);
    assert_eq!(ctx.log_verbose_header("Syncing", "x"), None);
    assert_eq!(ctx.log_status("Checked", "x"), None);
    assert_eq!(ctx.log_verbose_status("Checked", "x"), None);
    assert_eq!(ctx.log_warning("Skipped", "x"), None);
    assert_eq!(ctx.log_verbose_warning("Skipped", "x"), None);
}

#[test]
fn status_without_colour_is_right_aligned_in_capitals() {
    let ctx = context(Verbosity::Normal, true);
    assert_eq!(ctx.log_status("Checked", "fd@10.2.0"), Some("     CHECKED fd@10.2.0".to_owned()));
    assert_eq!(ctx.log_warning("Skipped", "rg"), Some("     SKIPPED rg".to_owned()));
    assert_eq!(ctx.log_verbose_status("Checked", "fd"), None);
    assert_eq!(ctx.log_verbose_warning("Skipped", "rg"), None);
    assert_eq!(
        ctx.log_status("A very long prefix", "m"),
        Some("A VERY LONG PREFIX m".to_owned())
    );
}

#[test]
fn status_in_colour_is_bold_cyan() {
    yansi::enable();
    let ctx = context(Verbosity::Verbose, false);
    let line = "\u{1b}[1;36m     Checked\u{1b}[0m fd@10.2.0".to_owned();
    assert_eq!(ctx.log_status("Checked", "fd@10.2.0"), Some(line.clone()));
    assert_eq!(ctx.log_verbose_status("Checked", "fd@10.2.0"), Some(line));
}

#[test]
fn warning_in_colour_is_bold_yellow() {
    yansi::enable();
    let ctx = context(Verbosity::Verbose, false);
    let line = "\u{1b}[1;33m     Skipped\u{1b}[0m rg".to_owned();
    assert_eq!(ctx.log_warning("Skipped", "rg"), Some(line.clone()));
    assert_eq!(ctx.log_verbose_warning("Skipped", "rg"), Some(line));
}

#[test]
fn labelled_line() {
    assert_eq!(labelled("label".to_owned(), "message"), "label message");
    assert_eq!(labelled(String::new(), ""), " ");
}

#[test]
fn error_with_causes_in_one_text() {
    assert_eq!(
        prettyify_error(&chain(&["failed to load rpk.toml", "invalid table", "line 3"])),
        "failed to load rpk.toml\n  due to: invalid table\n  due to: line 3"
    );
    assert_eq!(prettyify_error(&chain(&["alone"])), "alone");
    assert_eq!(prettyify_error(&chain(&[])), "");
    assert_eq!(prettyify_error(&chain(&["", "x"])), "\n  due to: x");
}

#[test]
fn error_report_without_colour() {
    let err = chain(&["no release", "not found"]);
    assert_eq!(log_error(true, &err), "\nERROR: no release\n  due to: not found");
    assert_eq!(log_error_as_warning(true, &err), "\nWARNING: no release\n  due to: not found");
    let ctx = context(Verbosity::Quiet, true);
    assert_eq!(ctx.log_error(&err), "\nERROR: no release\n  due to: not found");
    assert_eq!(ctx.log_error_as_warning(&err), "\nWARNING: no release\n  due to: not found");
}

#[test]
fn error_report_in_colour() {
    yansi::enable();
    let err = chain(&["no release"]);
    assert_eq!(log_error(false, &err), "\n\u{1b}[1;31merror:\u{1b}[0m no release");
    assert_eq!(log_error_as_warning(false, &err), "\n\u{1b}[1;33mwarning:\u{1b}[0m no release");
    let ctx = context(Verbosity::Normal, false);
    assert_eq!(ctx.log_error(&err), "\n\u{1b}[1;31merror:\u{1b}[0m no release");
    assert_eq!(ctx.log_error_as_warning(&err), "\n\u{1b}[1;33mwarning:\u{1b}[0m no release");
}

#[test]
fn usual_directories() {
    let dirs = rpk::context::Dirs { config_dir: None, data_dir: None, cache_dir: None, bin_dir: None };
    let ctx = Context::new("1.2.3", "/home/u", &dirs, Output::default());
    assert_eq!(ctx.version, "1.2.3");
    assert_eq!(ctx.config_dir, "/home/u/.config/rpk");
    assert_eq!(ctx.data_dir, "/home/u/.local/share/rpk");
    assert_eq!(ctx.cache_dir, "/home/u/.cache/rpk");
    assert_eq!(ctx.bin_dir, "/home/u/.local/bin");
    assert_eq!(ctx.config_file, "/home/u/.config/rpk/packages.toml");
    assert_eq!(ctx.lock_file, "/home/u/.config/rpk/packages.lock");
    assert_eq!(ctx.output, Output::default());
}

#[test]
fn given_directories_go_before_the_usual_ones() {
    let dirs = rpk::context::Dirs {
        config_dir: Some("/etc/rpk".to_owned()),
        data_dir: None,
        cache_dir: Some("/tmp/rpk-cache".to_owned()),
        bin_dir: Some("/usr/local/bin".to_owned()),
    };
    let output = Output { verbosity: Verbosity::Quiet, no_color: true };
    let ctx = Context::new("0.1.0", "/home/u", &dirs, output);
    assert_eq!(ctx.config_dir, "/etc/rpk");
    assert_eq!(ctx.data_dir, "/home/u/.local/share/rpk");
    assert_eq!(ctx.cache_dir, "/tmp/rpk-cache");
    assert_eq!(ctx.bin_dir, "/usr/local/bin");
    assert_eq!(ctx.config_file, "/etc/rpk/packages.toml");
    assert_eq!(ctx.lock_file, "/etc/rpk/packages.lock");
    assert_eq!(ctx.output, output);
}
