use rpk::config::{Config, Package, Source};
use rpk::context::{Context, Output, Verbosity};
use rpk::lock::{
    is_selected, restore_package, restore_packages, sync_package, sync_packages, update_packages,
    LockError, LockedConfig, LockedPackage, PackageError, PackageEvent, PackageState, Resolution,
};

fn context() -> Context {
    let mut ctx = Context::default();
    ctx.version = "0.1.0".to_owned();
    ctx.lock_file = "/cfg/packages.lock".to_owned();
    ctx.output = Output { verbosity: Verbosity::Normal, no_color: true };
    ctx
}

fn package(repo: &str, version: Option<&str>) -> Package {
    Package {
        name: String::new(),
        version: version.map(|v| v.to_owned()),
        source: Source::Github { repo: repo.to_owned() },
        desc: None,
    }
}

fn config(names: &[&str]) -> Config {
    Config::load(names.iter().map(|n| (n.to_string(), package(&format!("o/{}", n), None))).collect())
}

fn resolution(version: &str, filename: &str) -> Resolution {
    Resolution {
        version: version.to_owned(),
        filename: filename.to_owned(),
        download_url: Some(format!("https://example.com/{}", filename)),
    }
}

fn locked(name: &str, version: &str) -> LockedPackage {
    LockedPackage {
        name: name.to_owned(),
        version: version.to_owned(),
        source: Source::Github { repo: format!("o/{}", name) },
        desc: None,
        filename: format!("{}.tar.gz", name),
        download_url: Some(format!("https://example.com/{}.tar.gz", name)),
    }
}

fn names(pkgs: &Vec<LockedPackage>) -> Vec<&str> {
    pkgs.iter().map(|p| p.name.as_str()).collect()
}

fn failed(errors: &Vec<PackageError>) -> Vec<&str> {
    errors.iter().map(|e| e.name.as_str()).collect()
}

fn chain(items: &[&str]) -> Vec<String> {
    items.iter().map(|s| s.to_string()).collect()
}

#[test]
fn locked_package_from_a_resolution() {
    let mut pkg = package("sharkdp/fd", None);
    pkg.name = "fd".to_owned();
    pkg.desc = Some("find".to_owned());
    let lpkg = LockedPackage::new(&pkg, resolution("10.2.0", "fd.tar.gz"));
    assert_eq!(lpkg.name, "fd");
    assert_eq!(lpkg.version, "10.2.0");
    assert_eq!(lpkg.desc.as_deref(), Some("find"));
    assert_eq!(lpkg.filename, "fd.tar.gz");
    assert_eq!(lpkg.download_url.as_deref(), Some("https://example.com/fd.tar.gz"));
    assert_eq!(lpkg.to_label(), "fd@10.2.0");
}

#[test]
fn unpinned_package_asks_for_the_latest() {
    let pkg = locked("fd", "10.2.0").unpinned();
    assert_eq!(pkg.name, "fd");
    assert_eq!(pkg.version, None);
    assert_eq!(pkg.to_text(), "fd@latest from github.com:o/fd");
}

#[test]
fn lock_is_loaded_in_the_context_of_the_run() {
    let lcfg = LockedConfig::load(&context(), vec![locked("fd", "1"), locked("bat", "2")]).unwrap();
    assert_eq!(lcfg.ctx().lock_file, "/cfg/packages.lock");
    assert_eq!(names(lcfg.pkgs()), vec!["fd", "bat"]);
    assert!(lcfg.errors().is_empty());
    assert_eq!(lcfg.exit_code(), 0);
}

#[test]
fn lock_with_a_name_twice_is_refused() {
    let pkgs = vec![locked("fd", "1"), locked("bat", "2"), locked("fd", "3")];
    match LockedConfig::load(&context(), pkgs) {
        Err(LockError::DuplicateName(name)) => assert_eq!(name, "fd"),
        Ok(_) => panic!("a lock with a name twice was accepted"),
    }
}

#[test]
fn add_pkg_appends_a_new_name() {
    let mut lcfg = LockedConfig::new(&context());
    lcfg.add_pkg(locked("fd", "1"));
    lcfg.add_pkg(locked("bat", "2"));
    assert_eq!(names(lcfg.pkgs()), vec!["fd", "bat"]);
}

#[test]
fn add_pkg_replaces_a_package_of_the_same_name() {
    let mut lcfg = LockedConfig::new(&context());
    lcfg.add_pkg(locked("fd", "1"));
    lcfg.add_pkg(locked("bat", "2"));
    lcfg.add_pkg(locked("fd", "3"));
    assert_eq!(names(lcfg.pkgs()), vec!["fd", "bat"]);
    assert_eq!(lcfg.pkgs()[0].version, "3");
}

#[test]
fn errors_set_the_exit_code() {
    let mut lcfg = LockedConfig::new(&context());
    assert_eq!(lcfg.exit_code(), 0);
    lcfg.add_error(PackageError { name: "fd".to_owned(), chain: chain(&["boom"]) });
    assert_eq!(lcfg.exit_code(), 1);
    lcfg.add_error(PackageError { name: "rg".to_owned(), chain: chain(&["bang"]) });
    assert_eq!(lcfg.exit_code(), 1);
    assert_eq!(failed(lcfg.errors()), vec!["fd", "rg"]);
}

#[test]
fn sync_locks_every_package() {
    let mut run = sync_packages(&context(), config(&["rg", "fd", "bat"]));
    let mut seen = Vec::new();
    while let Some(pkg) = run.current() {
        seen.push(pkg.name.clone());
        let res = resolution("1.0.0", &format!("{}.tar.gz", pkg.name));
        run.record(Ok(res));
    }
    assert_eq!(seen, vec!["bat", "fd", "rg"]);
    let lcfg = run.finish().unwrap();
    assert_eq!(names(lcfg.pkgs()), vec!["bat", "fd", "rg"]);
    assert_eq!(lcfg.pkgs()[1].filename, "fd.tar.gz");
    assert!(lcfg.errors().is_empty());
    assert_eq!(lcfg.ctx().version, "0.1.0");
}

#[test]
fn sync_goes_on_after_a_failure() {
    let mut run = sync_packages(&context(), config(&["a", "b", "c"]));
    assert_eq!(run.current().unwrap().name, "a");
    run.record(Ok(resolution("1", "a.zip")));
    assert_eq!(run.current().unwrap().name, "b");
    run.record(Err(chain(&["failed to resolve", "no release matches 9.9.9"])));
    assert_eq!(run.current().unwrap().name, "c");
    run.record(Ok(resolution("3", "c.zip")));
    assert!(run.current().is_none());
    let lcfg = run.finish().unwrap();
    assert_eq!(names(lcfg.pkgs()), vec!["a", "c"]);
    assert_eq!(failed(lcfg.errors()), vec!["b"]);
    assert_eq!(lcfg.errors()[0].chain, chain(&["failed to resolve", "no release matches 9.9.9"]));
    assert_eq!(lcfg.exit_code(), 1);
}

#[test]
fn sync_has_no_lock_before_all_is_attempted() {
    let mut run = sync_packages(&context(), config(&["a", "b"]));
    run.record(Ok(resolution("1", "a.zip")));
    assert!(run.finish().is_none());
}

#[test]
fn sync_of_nothing_is_done_at_once() {
    let run = sync_packages(&context(), Config::new());
    assert!(run.current().is_none());
    let lcfg = run.finish().unwrap();
    assert!(lcfg.pkgs().is_empty());
    assert_eq!(lcfg.exit_code(), 0);
}

#[test]
fn record_after_the_end_changes_nothing() {
    let mut run = sync_packages(&context(), config(&["a"]));
    run.record(Ok(resolution("1", "a.zip")));
    run.record(Ok(resolution("2", "b.zip")));
    run.record(Err(chain(&["late"])));
    let lcfg = run.finish().unwrap();
    assert_eq!(names(lcfg.pkgs()), vec!["a"]);
    assert_eq!(lcfg.pkgs()[0].version, "1");
    assert!(lcfg.errors().is_empty());
}

#[test]
fn synced_lock_holds_each_name_once() {
    let mut run = sync_packages(
        &context(),
        Config::load(vec![
            ("fd".to_owned(), package("sharkdp/fd", None)),
            ("fd".to_owned(), package("other/fd", None)),
            ("bat".to_owned(), package("sharkdp/bat", None)),
        ]),
    );
    while run.current().is_some() {
        run.record(Ok(resolution("1", "x.zip")));
    }
    let lcfg = run.finish().unwrap();
    assert_eq!(names(lcfg.pkgs()), vec!["bat", "fd"]);
}

#[test]
fn update_resolves_every_locked_package_afresh() {
    let lcfg = LockedConfig::load(&context(), vec![locked("fd", "1"), locked("bat", "2")]).unwrap();
    let mut run = update_packages(lcfg, None);
    let pkg = run.current().unwrap();
    assert_eq!(pkg.name, "fd");
    assert_eq!(pkg.version, None);
    run.record(Ok(resolution("1.1", "fd-new.tar.gz")));
    assert_eq!(run.current().unwrap().name, "bat");
    run.record(Err(chain(&["network"])));
    let lcfg = run.finish().unwrap();
    assert_eq!(names(lcfg.pkgs()), vec!["fd"]);
    assert_eq!(lcfg.pkgs()[0].version, "1.1");
    assert_eq!(failed(lcfg.errors()), vec!["bat"]);
}

#[test]
fn update_of_one_package_leaves_the_others() {
    let lcfg = LockedConfig::load(
        &context(),
        vec![locked("fd", "1"), locked("bat", "2"), locked("rg", "3")],
    )
    .unwrap();
    let mut run = update_packages(lcfg, Some("bat".to_owned()));
    assert_eq!(run.current().unwrap().name, "bat");
    run.record(Ok(resolution("2.1", "bat-new.tar.gz")));
    assert!(run.current().is_none());
    let lcfg = run.finish().unwrap();
    assert_eq!(names(lcfg.pkgs()), vec!["fd", "rg", "bat"]);
    assert_eq!(lcfg.pkgs()[0].version, "1");
    assert_eq!(lcfg.pkgs()[1].version, "3");
    assert_eq!(lcfg.pkgs()[2].version, "2.1");
}

#[test]
fn update_of_an_unknown_package_changes_nothing() {
    let lcfg = LockedConfig::load(&context(), vec![locked("fd", "1")]).unwrap();
    let run = update_packages(lcfg, Some("nope".to_owned()));
    assert!(run.current().is_none());
    let lcfg = run.finish().unwrap();
    assert_eq!(names(lcfg.pkgs()), vec!["fd"]);
    assert_eq!(lcfg.pkgs()[0].version, "1");
}

#[test]
fn restore_leaves_the_lock_as_it_is() {
    let lcfg = LockedConfig::load(
        &context(),
        vec![locked("fd", "1"), locked("bat", "2"), locked("rg", "3")],
    )
    .unwrap();
    let mut run = restore_packages(lcfg, None);
    assert_eq!(run.current().unwrap().name, "fd");
    run.record(Ok(()));
    assert_eq!(run.current().unwrap().name, "bat");
    run.record(Err(chain(&["download failed"])));
    assert!(run.finish().is_none());
}

#[test]
fn restore_goes_on_after_a_failure() {
    let lcfg = LockedConfig::load(
        &context(),
        vec![locked("fd", "1"), locked("bat", "2"), locked("rg", "3")],
    )
    .unwrap();
    let mut run = restore_packages(lcfg, None);
    run.record(Ok(()));
    run.record(Err(chain(&["download failed"])));
    assert_eq!(run.current().unwrap().name, "rg");
    run.record(Ok(()));
    assert!(run.current().is_none());
    let lcfg = run.finish().unwrap();
    assert_eq!(names(lcfg.pkgs()), vec!["fd", "bat", "rg"]);
    assert_eq!(lcfg.pkgs()[1].version, "2");
    assert_eq!(failed(lcfg.errors()), vec!["bat"]);
    assert_eq!(lcfg.exit_code(), 1);
}

#[test]
fn restore_of_one_package() {
    let lcfg = LockedConfig::load(
        &context(),
        vec![locked("fd", "1"), locked("bat", "2"), locked("rg", "3")],
    )
    .unwrap();
    let mut run = restore_packages(lcfg, Some("bat".to_owned()));
    assert_eq!(run.current().unwrap().name, "bat");
    run.record(Ok(()));
    assert!(run.current().is_none());
    run.record(Err(chain(&["late"])));
    let lcfg = run.finish().unwrap();
    assert_eq!(names(lcfg.pkgs()), vec!["fd", "bat", "rg"]);
    assert!(lcfg.errors().is_empty());
}

#[test]
fn selection() {
    assert!(is_selected(&None, "fd"));
    assert!(is_selected(&Some("fd".to_owned()), "fd"));
    assert!(!is_selected(&Some("fd".to_owned()), "fdx"));
}

#[test]
fn checked_lines() {
    let ctx = context();
    let mut pkg = package("sharkdp/fd", None);
    pkg.name = "fd".to_owned();
    let (lpkg, line) = sync_package(&ctx, &pkg, resolution("10.2.0", "fd.tar.gz"));
    assert_eq!(lpkg.name, "fd");
    assert_eq!(lpkg.version, "10.2.0");
    assert_eq!(line, Some("     CHECKED fd@10.2.0".to_owned()));
    assert_eq!(restore_package(&ctx, &lpkg), Some("     CHECKED fd@10.2.0".to_owned()));
    let mut quiet = context();
    quiet.output.verbosity = Verbosity::Quiet;
    assert_eq!(restore_package(&quiet, &lpkg), None);
}

#[test]
fn package_states() {
    let events =
        [PackageEvent::Resolved, PackageEvent::Restored, PackageEvent::Failed, PackageEvent::Updated];
    assert_eq!(PackageState::Declared.next(PackageEvent::Resolved), Some(PackageState::Resolved));
    assert_eq!(PackageState::Declared.next(PackageEvent::Failed), Some(PackageState::Failed));
    assert_eq!(PackageState::Declared.next(PackageEvent::Restored), None);
    assert_eq!(PackageState::Declared.next(PackageEvent::Updated), None);
    assert_eq!(PackageState::Locked.next(PackageEvent::Restored), Some(PackageState::Installed));
    assert_eq!(PackageState::Locked.next(PackageEvent::Failed), Some(PackageState::Failed));
    assert_eq!(PackageState::Locked.next(PackageEvent::Updated), Some(PackageState::Declared));
    assert_eq!(PackageState::Locked.next(PackageEvent::Resolved), None);
    for state in [PackageState::Resolved, PackageState::Installed, PackageState::Failed] {
        for event in events {
            assert_eq!(state.next(event), None);
        }
    }
}

#[test]
fn locked_names_are_found() {
    let lcfg = LockedConfig::load(&context(), vec![locked("fd", "1"), locked("bat", "2")]).unwrap();
    assert!(lcfg.has_pkg("fd"));
    assert!(lcfg.has_pkg("bat"));
    assert!(!lcfg.has_pkg("rg"));
    assert!(!lcfg.has_pkg(""));
    assert!(!LockedConfig::new(&context()).has_pkg("fd"));
}

#[test]
fn stale_installations() {
    let lcfg = LockedConfig::load(&context(), vec![locked("fd", "1"), locked("bat", "2")]).unwrap();
    let installed: Vec<String> =
        ["/data/fd", "/data/old-tool", "/data/bat/", "/data/rg", "/", "/data/.."]
            .iter()
            .map(|s| s.to_string())
            .collect();
    assert_eq!(lcfg.stale(&installed), vec!["/data/old-tool".to_owned(), "/data/rg".to_owned()]);
    assert!(lcfg.stale(&Vec::new()).is_empty());
    assert_eq!(LockedConfig::new(&context()).stale(&installed).len(), 4);
}

#[test]
fn saved_lock_holds_the_packages_and_no_failures() {
    let mut run = sync_packages(&context(), config(&["a", "b"]));
    run.record(Ok(resolution("1", "a.zip")));
    run.record(Err(chain(&["boom"])));
    let lcfg = run.finish().unwrap();
    let (ctx, pkgs) = lcfg.save();
    assert_eq!(ctx.lock_file, "/cfg/packages.lock");
    assert_eq!(names(pkgs), vec!["a"]);
    assert_eq!(lcfg.errors().len(), 1);
}
