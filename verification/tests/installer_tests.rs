use rpk::config::Source;
use rpk::context::Context;
use rpk::lock::installer::{
    archive_format, detect_format, install_root, is_extractable, locate_executable, plan, Entry,
    Format, InstallError,
};
use rpk::lock::LockedPackage;

fn entry(name: &str, executable: bool) -> Entry {
    Entry { name: name.to_owned(), executable }
}

fn strings(items: &[&str]) -> Vec<String> {
    items.iter().map(|s| s.to_string()).collect()
}

fn locked(name: &str, filename: &str) -> LockedPackage {
    LockedPackage {
        name: name.to_owned(),
        version: "1.0.0".to_owned(),
        source: Source::Github { repo: "o/r".to_owned() },
        desc: None,
        filename: filename.to_owned(),
        download_url: Some("https://example.com/a".to_owned()),
    }
}

fn context() -> Context {
    let mut ctx = Context::default();
    ctx.cache_dir = "/home/u/.cache/rpk".to_owned();
    ctx.data_dir = "/home/u/.local/share/rpk".to_owned();
    ctx.bin_dir = "/home/u/.local/bin".to_owned();
    ctx
}

#[test]
fn archives_by_their_names() {
    assert_eq!(detect_format("fd-v10.2.0-x86_64-unknown-linux-gnu.tar.gz"), Ok(Format::TarGz));
    assert_eq!(detect_format("tool.tgz"), Ok(Format::TarGz));
    assert_eq!(detect_format("tool.tar.xz"), Ok(Format::TarXz));
    assert_eq!(detect_format("tool.tar.bz2"), Ok(Format::TarBz2));
    assert_eq!(detect_format("tool-linux.zip"), Ok(Format::Zip));
    assert_eq!(archive_format("tool.zip"), Some(Format::Zip));
    assert_eq!(archive_format("tool"), None);
    assert!(is_extractable("a.tar.gz"));
    assert!(!is_extractable("a.gz"));
}

#[test]
fn bare_executables_have_no_extension() {
    assert_eq!(detect_format("jq-linux-amd64"), Ok(Format::Binary));
    assert_eq!(detect_format("tool-1.2.3"), Ok(Format::Binary));
    assert_eq!(detect_format("tool-v1.2.3-x86_64-unknown-linux-musl"), Ok(Format::Binary));
    assert_eq!(detect_format("tool."), Ok(Format::Binary));
    assert_eq!(detect_format(""), Ok(Format::Binary));
}

#[test]
fn other_files_are_refused() {
    assert_eq!(detect_format("tool.deb"), Err(InstallError::UnsupportedFormat));
    assert_eq!(detect_format("tool.7z"), Err(InstallError::UnsupportedFormat));
    assert_eq!(detect_format("tool.tar.gz.sha256"), Err(InstallError::UnsupportedFormat));
    assert_eq!(detect_format("tool.AppImage"), Err(InstallError::UnsupportedFormat));
    assert_eq!(detect_format("tool.gz"), Err(InstallError::UnsupportedFormat));
    assert_eq!(detect_format(".hidden"), Err(InstallError::UnsupportedFormat));
}

#[test]
fn plan_names_places_after_the_package() {
    let p = plan(&context(), &locked("fd", "fd-v10.tar.gz")).unwrap();
    assert_eq!(p.format, Format::TarGz);
    assert_eq!(p.asset, "/home/u/.cache/rpk/fd-v10.tar.gz");
    assert_eq!(p.dir, "/home/u/.local/share/rpk/fd");
    assert_eq!(p.link, "/home/u/.local/bin/fd");
}

#[test]
fn plan_is_the_same_each_time() {
    let a = plan(&context(), &locked("fd", "fd-v10.tar.gz")).unwrap();
    let b = plan(&context(), &locked("fd", "fd-v10.tar.gz")).unwrap();
    assert_eq!(a.format, b.format);
    assert_eq!(a.asset, b.asset);
    assert_eq!(a.dir, b.dir);
    assert_eq!(a.link, b.link);
}

#[test]
fn plan_for_an_unknown_container_is_refused() {
    assert_eq!(
        plan(&context(), &locked("fd", "fd.rpm")).unwrap_err(),
        InstallError::UnsupportedFormat
    );
}

#[test]
fn install_root_steps_into_a_wrapper() {
    let paths = strings(&["fd-v10/", "fd-v10/fd", "fd-v10/README.md"]);
    assert_eq!(install_root("/data/fd", &paths), "/data/fd/fd-v10");
}

#[test]
fn install_root_without_a_wrapper() {
    assert_eq!(install_root("/data/fd", &strings(&["fd", "README.md"])), "/data/fd");
    assert_eq!(install_root("/data/fd", &strings(&["bin/fd", "doc/fd.1"])), "/data/fd");
    assert_eq!(install_root("/data/fd", &Vec::new()), "/data/fd");
}

#[test]
fn executable_of_the_package_name_is_preferred() {
    let entries = vec![entry("README.md", false), entry("helper", true), entry("fd", true)];
    assert_eq!(locate_executable("fd", "", &entries), Ok(2));
    // The name decides, whatever the file's mode says.
    let entries = vec![entry("fd", false), entry("helper", true)];
    assert_eq!(locate_executable("fd", "", &entries), Ok(0));
}

#[test]
fn executable_with_the_suffix_of_the_platform() {
    let entries = vec![entry("fd", true), entry("fd.exe", true)];
    assert_eq!(locate_executable("fd", ".exe", &entries), Ok(1));
}

#[test]
fn single_executable_is_taken() {
    let entries = vec![entry("README.md", false), entry("fdfind", true), entry("LICENSE", false)];
    assert_eq!(locate_executable("fd", "", &entries), Ok(1));
}

#[test]
fn several_executables_are_ambiguous() {
    let entries = vec![entry("a", true), entry("README.md", false), entry("b", true)];
    assert_eq!(locate_executable("fd", "", &entries), Err(InstallError::AmbiguousExecutable));
}

#[test]
fn no_executable_is_ambiguous() {
    let entries = vec![entry("README.md", false)];
    assert_eq!(locate_executable("fd", "", &entries), Err(InstallError::AmbiguousExecutable));
    assert_eq!(locate_executable("fd", "", &Vec::new()), Err(InstallError::AmbiguousExecutable));
}
