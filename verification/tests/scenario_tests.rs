use rpk::config::{Config, Package, Source};
use rpk::context::{Context, Output, Verbosity};
use rpk::lock::installer::{install_root, locate_executable, plan, Entry, Format};
use rpk::lock::{restore_packages, sync_package, sync_packages};
use rpk::provider::{fetch_pinned, resolve, Asset, Platform, Release, ResolveError};
use rpk::util::fs_ext::symlink_force;
use rpk::util::IoErrorKind;

fn context() -> Context {
    let mut ctx = Context::default();
    ctx.cache_dir = "/home/u/.cache/rpk".to_owned();
    ctx.data_dir = "/home/u/.local/share/rpk".to_owned();
    ctx.bin_dir = "/home/u/.local/bin".to_owned();
    ctx.output = Output { verbosity: Verbosity::Normal, no_color: true };
    ctx
}

fn declared(repo: &str, version: Option<&str>) -> Package {
    Package {
        name: String::new(),
        version: version.map(|v| v.to_owned()),
        source: Source::Github { repo: repo.to_owned() },
        desc: None,
    }
}

fn release(tag: &str, assets: &[&str]) -> Release {
    Release {
        tag: tag.to_owned(),
        assets: assets
            .iter()
            .map(|a| Asset {
                name: a.to_string(),
                download_url: format!("https://github.com/dl/{}/{}", tag, a),
            })
            .collect(),
    }
}

fn listing_of(name: &str) -> Vec<Release> {
    vec![
        release(
            "v2.0.0",
            &[
                &format!("{}-v2.0.0-x86_64-apple-darwin.tar.gz", name),
                &format!("{}-v2.0.0-x86_64-unknown-linux-gnu.tar.gz", name),
            ],
        ),
        release("v1.0.0", &[&format!("{}-v1.0.0-x86_64-unknown-linux-gnu.tar.gz", name)]),
    ]
}

fn strings(items: &[&str]) -> Vec<String> {
    items.iter().map(|s| s.to_string()).collect()
}

#[test]
fn fd_is_resolved_installed_and_locked() {
    let ctx = context();
    let platform = Platform { os: "linux".to_owned(), arch: "x86_64".to_owned() };
    let config = Config::load(vec![("fd".to_owned(), declared("sharkdp/fd", None))]);
    let mut run = sync_packages(&ctx, config);

    let pkg = run.current().unwrap().clone();
    assert_eq!(pkg.to_text(), "fd@latest from github.com:sharkdp/fd");
    let listing = vec![
        release(
            "v10.2.0",
            &[
                "fd-v10.2.0-aarch64-unknown-linux-gnu.tar.gz",
                "fd-v10.2.0-x86_64-apple-darwin.tar.gz",
                "fd-v10.2.0-x86_64-unknown-linux-gnu.tar.gz",
            ],
        ),
        release("v10.1.0", &["fd-v10.1.0-x86_64-unknown-linux-gnu.tar.gz"]),
    ];
    let res = resolve(&pkg, &listing, &platform).unwrap();
    let url = "https://github.com/dl/v10.2.0/fd-v10.2.0-x86_64-unknown-linux-gnu.tar.gz";
    assert_eq!(res.version, "10.2.0");
    assert_eq!(res.filename, "fd-v10.2.0-x86_64-unknown-linux-gnu.tar.gz");
    assert_eq!(res.download_url.as_deref(), Some(url));

    let (lpkg, line) = sync_package(&ctx, &pkg, rpk::lock::Resolution {
        version: res.version.clone(),
        filename: res.filename.clone(),
        download_url: res.download_url.clone(),
    });
    assert_eq!(line, Some("     CHECKED fd@10.2.0".to_owned()));

    let p = plan(&ctx, &lpkg).unwrap();
    assert_eq!(p.format, Format::TarGz);
    assert_eq!(p.asset, "/home/u/.cache/rpk/fd-v10.2.0-x86_64-unknown-linux-gnu.tar.gz");
    assert_eq!(p.dir, "/home/u/.local/share/rpk/fd");
    assert_eq!(p.link, "/home/u/.local/bin/fd");

    let unpacked = strings(&[
        "fd-v10.2.0-x86_64-unknown-linux-gnu/",
        "fd-v10.2.0-x86_64-unknown-linux-gnu/fd",
        "fd-v10.2.0-x86_64-unknown-linux-gnu/fd.1",
        "fd-v10.2.0-x86_64-unknown-linux-gnu/autocomplete/fd.bash",
    ]);
    let root = install_root(&p.dir, &unpacked);
    assert_eq!(root, "/home/u/.local/share/rpk/fd/fd-v10.2.0-x86_64-unknown-linux-gnu");
    let files = vec![
        Entry { name: "fd.1".to_owned(), executable: false },
        Entry { name: "fd".to_owned(), executable: true },
    ];
    assert_eq!(locate_executable(&lpkg.name, "", &files), Ok(1));
    // Nothing is at the link's place yet.
    assert_eq!(symlink_force(Err(IoErrorKind::NotFound)), Ok(()));

    run.record(Ok(res));
    let lcfg = run.finish().unwrap();
    assert_eq!(lcfg.pkgs().len(), 1);
    let saved = &lcfg.pkgs()[0];
    assert_eq!(saved.name, "fd");
    assert_eq!(saved.version, "10.2.0");
    assert_eq!(saved.filename, "fd-v10.2.0-x86_64-unknown-linux-gnu.tar.gz");
    assert_eq!(saved.download_url.as_deref(), Some(url));
    assert_eq!(lcfg.exit_code(), 0);
}

#[test]
fn one_failure_among_three_packages() {
    let ctx = context();
    let platform = Platform { os: "linux".to_owned(), arch: "x86_64".to_owned() };
    let config = Config::load(vec![
        ("alpha".to_owned(), declared("o/alpha", None)),
        ("beta".to_owned(), declared("o/beta", Some("9.9.9"))),
        ("gamma".to_owned(), declared("o/gamma", Some("1.0.0"))),
    ]);
    let mut run = sync_packages(&ctx, config);
    while let Some(pkg) = run.current() {
        let outcome = match resolve(pkg, &listing_of(&pkg.name), &platform) {
            Ok(res) => Ok(res),
            Err(ResolveError::UnsatisfiableVersion) => {
                Err(vec!["failed to resolve".to_owned(), "no release of that version".to_owned()])
            }
            Err(ResolveError::NoMatchingAsset) => Err(vec!["no asset".to_owned()]),
        };
        run.record(outcome);
    }
    let lcfg = run.finish().unwrap();
    let names: Vec<&str> = lcfg.pkgs().iter().map(|p| p.name.as_str()).collect();
    assert_eq!(names, vec!["alpha", "gamma"]);
    assert_eq!(lcfg.pkgs()[0].version, "2.0.0");
    assert_eq!(lcfg.pkgs()[1].version, "1.0.0");
    assert_eq!(lcfg.errors().len(), 1);
    assert_eq!(lcfg.errors()[0].name, "beta");
    assert_ne!(lcfg.exit_code(), 0);
}

#[test]
fn restore_fetches_what_the_lock_records() {
    let ctx = context();
    let platform = Platform { os: "linux".to_owned(), arch: "x86_64".to_owned() };
    let mut run = sync_packages(
        &ctx,
        Config::load(vec![("tool".to_owned(), declared("o/tool", Some("1.0.0")))]),
    );
    let pkg = run.current().unwrap().clone();
    run.record(Ok(resolve(&pkg, &listing_of("tool"), &platform).unwrap()));
    let lcfg = run.finish().unwrap();

    // The host lists a newer release by now; the restore does not look at it.
    let mut restore = restore_packages(lcfg, None);
    let lpkg = restore.current().unwrap();
    let fetch = fetch_pinned(lpkg).unwrap();
    assert_eq!(
        fetch.url,
        "https://github.com/dl/v1.0.0/tool-v1.0.0-x86_64-unknown-linux-gnu.tar.gz"
    );
    assert_eq!(fetch.filename, "tool-v1.0.0-x86_64-unknown-linux-gnu.tar.gz");
    restore.record(Ok(()));
    let lcfg = restore.finish().unwrap();
    assert_eq!(lcfg.pkgs()[0].version, "1.0.0");
}

#[test]
fn second_installation_replaces_the_link() {
    let ctx = context();
    let lpkg = rpk::lock::LockedPackage {
        name: "fd".to_owned(),
        version: "10.2.0".to_owned(),
        source: Source::Github { repo: "sharkdp/fd".to_owned() },
        desc: None,
        filename: "fd.tar.gz".to_owned(),
        download_url: None,
    };
    let first = plan(&ctx, &lpkg).unwrap();
    // The first time nothing is at the link's place; the second time the link is.
    assert_eq!(symlink_force(Err(IoErrorKind::NotFound)), Ok(()));
    let second = plan(&ctx, &lpkg).unwrap();
    assert_eq!(first.link, second.link);
    assert_eq!(first.dir, second.dir);
    assert_eq!(symlink_force(Ok(())), Ok(()));
}
