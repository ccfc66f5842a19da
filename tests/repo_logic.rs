use repoctl::classify::{classify_pkgs, get_new_pkgs, get_outdated_pkgs, PackageFile};
use repoctl::package::{
    chars_of, evr_compare, parse_package_path, pkg_vercmp, vercmp, PackageIdentity,
};
use repoctl::repo::{
    exclude_existing_pkgs, get_brand_new_pkgs, get_stale_pkgs, remove_pkgs_without_sig,
    retain_not_existing, validate_packages,
};
use repoctl::retention::get_stale_pkg_versions;
use repoctl::version::rpmvercmp_chars;
use repoctl::workflow::{
    db_changes_after_move, do_backup_repo_cleanup, do_repo_checkup, do_repo_move_pkgs,
    do_repo_reset, do_repo_update, get_profile_from_config, get_repo_db_prefix,
    get_repo_dir_from_profile, handle_outdated_pkgs, handle_pkgfile_move, handle_pkgfiles_move,
    move_packages_from_repo_to_repo, Config, MovePlan, NamedProfile, Profile, RepoMovePlan,
};

fn file(path: &str, sig: bool) -> PackageFile {
    PackageFile { path: path.to_owned(), has_signature: sig }
}

fn id(name: &str, version: &str, release: &str, arch: &str) -> PackageIdentity {
    PackageIdentity {
        name: name.to_owned(),
        version: version.to_owned(),
        release: release.to_owned(),
        arch: arch.to_owned(),
    }
}

fn profile(repo: &str) -> Profile {
    Profile {
        repo: repo.to_owned(),
        require_signature: false,
        backup: false,
        backup_dir: None,
        backup_num: None,
        reference_repo: None,
        debug_dir: None,
    }
}

fn vc(a: &str, b: &str) -> i32 {
    rpmvercmp_chars(&chars_of(a), &chars_of(b))
}

fn paths(v: &[PackageFile]) -> Vec<String> {
    v.iter().map(|f| f.path.clone()).collect()
}

#[test]
fn vercmp_segments() {
    assert_eq!(vc("1.0", "1.0"), 0);
    assert_eq!(vc("1.0", "1.1"), -1);
    assert_eq!(vc("1.1", "1.0"), 1);
    assert_eq!(vc("2.0", "10.0"), -1);
    assert_eq!(vc("1.001", "1.1"), 0);
    assert_eq!(vc("1.0a", "1.0"), -1);
    assert_eq!(vc("1.0", "1.0a"), 1);
    assert_eq!(vc("1.0", "1.0.1"), -1);
    assert_eq!(vc("1.0alpha", "1.0beta"), -1);
    assert_eq!(vc("1.0", "1_0"), 0);
    assert_eq!(vc("1.0", "1..0"), -1);
    assert_eq!(vc("1a", "1.1"), -1);
    assert_eq!(vc("", ""), 0);
}

#[test]
fn vercmp_is_antisymmetric_on_samples() {
    let vs = ["1.0", "1.0a", "1.0.1", "2", "1.10", "1.9", "1.0rc1", "1:0", "abc", ""];
    for a in vs.iter() {
        assert_eq!(vc(a, a), 0);
        for b in vs.iter() {
            assert_eq!(vc(a, b), -vc(b, a));
        }
    }
}

#[test]
fn evr_order() {
    assert_eq!(evr_compare("1:1.0", "1", "2.0", "1"), 1);
    assert_eq!(evr_compare("1.0", "1", "1:0.1", "1"), -1);
    assert_eq!(evr_compare("1.0", "1", "1.0", "2"), -1);
    assert_eq!(evr_compare("0:1.0", "1", "1.0", "1"), 0);
    assert_eq!(evr_compare(":1.0", "1", "1.0", "1"), 0);
    assert_eq!(evr_compare("1.0", "1.1", "1.0", "1"), 1);
    assert_eq!(pkg_vercmp(&id("a", "1.2", "1", "any"), &id("a", "1.10", "1", "any")), -1);
}

#[test]
fn parses_package_paths() {
    assert_eq!(
        parse_package_path("/repo/foo-1.0-1-x86_64.pkg.tar.zst"),
        Some(id("foo", "1.0", "1", "x86_64"))
    );
    assert_eq!(
        parse_package_path("foo-bar-2:1.0-3-any.pkg.tar.xz"),
        Some(id("foo-bar", "2:1.0", "3", "any"))
    );
    assert_eq!(
        parse_package_path("dir/foo-1.0-1-x86_64.pkg.tar.zst.sig"),
        Some(id("foo", "1.0", "1", "x86_64"))
    );
    assert_eq!(parse_package_path("foo-1.0-x86_64.pkg.tar.zst"), None);
    assert_eq!(parse_package_path("foo-1.0-1-x86_64.tar.zst"), None);
    assert_eq!(parse_package_path("foo-1.0-1-x86_64.pkg.tar."), None);
    assert_eq!(parse_package_path("/a-b/c-1-x86_64.pkg.tar.zst"), None);
    assert_eq!(parse_package_path(""), None);
}

#[test]
fn new_and_outdated_example() {
    let files = vec![
        file("/r/foo-1.0-1-x86_64.pkg.tar.zst", true),
        file("/r/foo-1.1-1-x86_64.pkg.tar.zst", true),
    ];
    assert_eq!(paths(&get_new_pkgs(&files)), vec!["/r/foo-1.1-1-x86_64.pkg.tar.zst"]);
    assert_eq!(paths(&get_outdated_pkgs(&files)), vec!["/r/foo-1.0-1-x86_64.pkg.tar.zst"]);
}

#[test]
fn classification_partitions_groups() {
    let files = vec![
        file("/r/foo-1.0-1-x86_64.pkg.tar.zst", false),
        file("/r/foo-1.0-1-aarch64.pkg.tar.zst", false),
        file("/r/bar-2-1-any.pkg.tar.zst", false),
        file("/r/foo-1.2-1-x86_64.pkg.tar.zst", false),
        file("/r/foo-1.1-1-x86_64.pkg.tar.zst", false),
        file("/r/bar-1:1-1-any.pkg.tar.zst", false),
        file("/r/notes.txt", false),
    ];
    let (new, old) = classify_pkgs(&files);
    assert_eq!(
        paths(&new),
        vec![
            "/r/foo-1.0-1-aarch64.pkg.tar.zst",
            "/r/foo-1.2-1-x86_64.pkg.tar.zst",
            "/r/bar-1:1-1-any.pkg.tar.zst"
        ]
    );
    assert_eq!(
        paths(&old),
        vec![
            "/r/foo-1.0-1-x86_64.pkg.tar.zst",
            "/r/bar-2-1-any.pkg.tar.zst",
            "/r/foo-1.1-1-x86_64.pkg.tar.zst"
        ]
    );
}

#[test]
fn equal_versions_keep_the_smaller_path() {
    let a = file("/r/foo-0:1.0-1-x86_64.pkg.tar.zst", false);
    let b = file("/r/foo-1.0-1-x86_64.pkg.tar.zst", false);
    let ab = vec![a.clone(), b.clone()];
    let ba = vec![b.clone(), a.clone()];
    assert_eq!(paths(&get_new_pkgs(&ab)), vec!["/r/foo-0:1.0-1-x86_64.pkg.tar.zst"]);
    assert_eq!(paths(&get_new_pkgs(&ba)), vec!["/r/foo-0:1.0-1-x86_64.pkg.tar.zst"]);
    assert_eq!(paths(&get_outdated_pkgs(&ab)), vec!["/r/foo-1.0-1-x86_64.pkg.tar.zst"]);
    assert_eq!(paths(&get_outdated_pkgs(&ba)), vec!["/r/foo-1.0-1-x86_64.pkg.tar.zst"]);
    assert_eq!(
        paths(&get_stale_pkg_versions(&ab, 1)),
        vec!["/r/foo-1.0-1-x86_64.pkg.tar.zst"]
    );
    assert_eq!(
        paths(&get_stale_pkg_versions(&ba, 1)),
        vec!["/r/foo-1.0-1-x86_64.pkg.tar.zst"]
    );
    assert!(get_new_pkgs(&vec![]).is_empty());
}

#[test]
fn backup_into_the_repository_directory_is_refused() {
    let mut p = profile("/r/repo.db.tar.zst");
    p.backup = true;
    p.backup_dir = Some("/r".to_owned());
    p.backup_num = Some(0);
    let outdated = vec![file("/r/a-1-1-any.pkg.tar.zst", true)];
    let plan = handle_outdated_pkgs(&p, &outdated);
    assert!(plan.transfers.is_empty());
    assert_eq!(plan.removals, vec!["/r/a-1-1-any.pkg.tar.zst", "/r/a-1-1-any.pkg.tar.zst.sig"]);
    assert!(do_backup_repo_cleanup(&p, &outdated).is_empty());
    p.backup_dir = Some("/bk".to_owned());
    assert_eq!(handle_outdated_pkgs(&p, &outdated).transfers.len(), 2);
    assert_eq!(do_backup_repo_cleanup(&p, &outdated).len(), 2);
}

#[test]
fn backup_retention_example() {
    let files = vec![
        file("/b/bar-1.2-1-any.pkg.tar.zst", false),
        file("/b/bar-1.0-1-any.pkg.tar.zst", false),
        file("/b/bar-1.3-1-any.pkg.tar.zst", false),
        file("/b/bar-1.1-1-any.pkg.tar.zst", false),
        file("/b/baz-1-1-any.pkg.tar.zst", false),
    ];
    assert_eq!(
        paths(&get_stale_pkg_versions(&files, 2)),
        vec!["/b/bar-1.0-1-any.pkg.tar.zst", "/b/bar-1.1-1-any.pkg.tar.zst"]
    );
    assert_eq!(get_stale_pkg_versions(&files, 0).len(), 5);
    assert_eq!(get_stale_pkg_versions(&files, 4).len(), 0);
    assert_eq!(paths(&get_stale_pkg_versions(&files, 3)), vec!["/b/bar-1.0-1-any.pkg.tar.zst"]);
}

#[test]
fn backup_cleanup_removes_files_and_signatures() {
    let files = vec![
        file("/b/bar-1.0-1-any.pkg.tar.zst", true),
        file("/b/bar-1.1-1-any.pkg.tar.zst", false),
        file("/b/bar-1.2-1-any.pkg.tar.zst", true),
    ];
    let mut p = profile("/r/repo.db.tar.zst");
    p.backup = true;
    p.backup_dir = Some("/b".to_owned());
    assert!(do_backup_repo_cleanup(&p, &files).is_empty());
    p.backup_num = Some(1);
    assert_eq!(
        do_backup_repo_cleanup(&p, &files),
        vec![
            "/b/bar-1.0-1-any.pkg.tar.zst",
            "/b/bar-1.0-1-any.pkg.tar.zst.sig",
            "/b/bar-1.1-1-any.pkg.tar.zst"
        ]
    );
    p.backup_dir = Some("/r/repo.db.tar.zst".to_owned());
    assert!(do_backup_repo_cleanup(&p, &files).is_empty());
}

#[test]
fn unsigned_file_blocks_moves() {
    let files = vec![
        file("/c/a-1-1-any.pkg.tar.zst", true),
        file("/c/b-1-1-any.pkg.tar.zst", false),
        file("/c/c-1-1-any.pkg.tar.zst", true),
    ];
    assert!(!validate_packages(true, &files));
    assert!(validate_packages(false, &files));
    let mut p = profile("/r/repo.db.tar.zst");
    p.require_signature = true;
    assert!(matches!(do_repo_move_pkgs(&p, &files, &vec![], "/r"), MovePlan::Aborted));
    assert!(matches!(
        move_packages_from_repo_to_repo(&profile("/s/s.db"), &files, &p, "/r"),
        RepoMovePlan::Aborted
    ));
}

#[test]
fn signatures_filter() {
    let mut files = vec![
        file("/c/a-1-1-any.pkg.tar.zst", true),
        file("/c/b-1-1-any.pkg.tar.zst", false),
        file("/c/c-1-1-any.pkg.tar.zst", true),
    ];
    remove_pkgs_without_sig(&mut files);
    assert_eq!(paths(&files), vec!["/c/a-1-1-any.pkg.tar.zst", "/c/c-1-1-any.pkg.tar.zst"]);
}

#[test]
fn transfers_carry_signatures() {
    let t = handle_pkgfile_move(&file("/c/a-1-1-any.pkg.tar.zst", true), "/r");
    assert_eq!(t.len(), 2);
    assert_eq!(t[0].from, "/c/a-1-1-any.pkg.tar.zst");
    assert_eq!(t[0].to, "/r/a-1-1-any.pkg.tar.zst");
    assert!(t[0].required);
    assert_eq!(t[1].from, "/c/a-1-1-any.pkg.tar.zst.sig");
    assert_eq!(t[1].to, "/r/a-1-1-any.pkg.tar.zst.sig");
    assert!(!t[1].required);
    let all = handle_pkgfiles_move(
        &vec![file("x-1-1-any.pkg.tar.zst", false), file("/c/a-1-1-any.pkg.tar.zst", true)],
        "/r",
    );
    assert_eq!(all.len(), 3);
    assert_eq!(all[0].to, "/r/x-1-1-any.pkg.tar.zst");
}

#[test]
fn existing_packages_are_not_moved() {
    let db = vec![id("a", "2", "1", "any"), id("b", "1", "1", "any")];
    let files = vec![
        file("/c/a-1-1-any.pkg.tar.zst", false),
        file("/c/b-1-2-any.pkg.tar.zst", false),
        file("/c/c-1-1-any.pkg.tar.zst", false),
        file("/c/a-2-1-any.pkg.tar.zst", false),
    ];
    assert_eq!(
        paths(&exclude_existing_pkgs(&db, &files)),
        vec!["/c/a-1-1-any.pkg.tar.zst", "/c/a-2-1-any.pkg.tar.zst"]
    );
    assert_eq!(
        paths(&retain_not_existing(&db, &files)),
        vec!["/c/b-1-2-any.pkg.tar.zst", "/c/c-1-1-any.pkg.tar.zst"]
    );
    match do_repo_move_pkgs(&profile("/r/r.db"), &files, &db, "/r") {
        MovePlan::Move { transfers } => {
            assert_eq!(transfers.len(), 2);
            assert_eq!(transfers[1].to, "/r/c-1-1-any.pkg.tar.zst");
        },
        MovePlan::Aborted => panic!("move refused"),
    }
}

#[test]
fn brand_new_and_stale() {
    let db = vec![id("a", "1", "1", "any"), id("gone", "1", "1", "any")];
    let files = vec![file("/r/a-2-1-any.pkg.tar.zst", false), file("/r/n-1-1-any.pkg.tar.zst", false)];
    assert_eq!(paths(&get_brand_new_pkgs(&db, &files)), vec!["/r/n-1-1-any.pkg.tar.zst"]);
    assert_eq!(get_stale_pkgs(&db, &files), vec![id("gone", "1", "1", "any")]);
}

#[test]
fn reset_plan_and_its_repeat() {
    let files = vec![
        file("/r/foo-1.0-1-x86_64.pkg.tar.zst", true),
        file("/r/foo-1.1-1-x86_64.pkg.tar.zst", false),
        file("/r/bar-1-1-any.pkg.tar.zst", true),
    ];
    let p = profile("/r/r.db.tar.zst");
    let first = do_repo_reset(&p, &files);
    assert_eq!(
        paths(&first.add),
        vec!["/r/foo-1.1-1-x86_64.pkg.tar.zst", "/r/bar-1-1-any.pkg.tar.zst"]
    );
    assert_eq!(
        first.outdated.removals,
        vec!["/r/foo-1.0-1-x86_64.pkg.tar.zst", "/r/foo-1.0-1-x86_64.pkg.tar.zst.sig"]
    );
    let second = do_repo_reset(&p, &first.add);
    assert_eq!(paths(&second.add), paths(&first.add));
    assert!(second.outdated.removals.is_empty());
    let mut signed = profile("/r/r.db.tar.zst");
    signed.require_signature = true;
    assert_eq!(paths(&do_repo_reset(&signed, &files).add), vec!["/r/bar-1-1-any.pkg.tar.zst"]);
}

#[test]
fn update_plan() {
    let db = vec![id("foo", "1.0", "1", "x86_64"), id("gone", "1", "1", "any")];
    let files = vec![
        file("/r/foo-1.0-1-x86_64.pkg.tar.zst", false),
        file("/r/foo-1.1-1-x86_64.pkg.tar.zst", false),
        file("/r/n-1-1-any.pkg.tar.zst", false),
    ];
    let mut p = profile("/r/r.db.tar.zst");
    p.backup = true;
    p.backup_dir = Some("/bk".to_owned());
    let plan = do_repo_update(&p, &files, &db);
    assert_eq!(
        paths(&plan.add),
        vec!["/r/foo-1.1-1-x86_64.pkg.tar.zst", "/r/n-1-1-any.pkg.tar.zst", "/r/n-1-1-any.pkg.tar.zst"]
    );
    assert_eq!(plan.outdated.transfers.len(), 1);
    assert_eq!(plan.outdated.transfers[0].to, "/bk/foo-1.0-1-x86_64.pkg.tar.zst");
    assert!(plan.outdated.cleanup_backups);
    assert_eq!(plan.remove, vec![id("gone", "1", "1", "any")]);

    let empty = do_repo_update(&p, &vec![], &db);
    assert!(empty.add.is_empty());
    assert!(!empty.outdated.cleanup_backups);
    assert_eq!(empty.remove.len(), 2);
}

#[test]
fn outdated_handling_without_backup_dir_deletes() {
    let mut p = profile("/r/r.db");
    p.backup = true;
    p.backup_dir = Some("/r/r.db".to_owned());
    let plan = handle_outdated_pkgs(&p, &vec![file("/r/a-1-1-any.pkg.tar.zst", false)]);
    assert!(plan.transfers.is_empty());
    assert_eq!(plan.removals, vec!["/r/a-1-1-any.pkg.tar.zst"]);
    assert!(plan.cleanup_backups);
}

#[test]
fn move_between_repositories() {
    let files = vec![file("/s/a-1-1-any.pkg.tar.zst", true)];
    let plan = move_packages_from_repo_to_repo(&profile("/s/s.db"), &files, &profile("/d/d.db"), "/d");
    match &plan {
        RepoMovePlan::Move { transfers, remove_from_src, add_to_dest } => {
            assert_eq!(transfers.len(), 2);
            assert_eq!(remove_from_src, &vec![id("a", "1", "1", "any")]);
            assert_eq!(paths(add_to_dest), vec!["/d/a-1-1-any.pkg.tar.zst"]);
            assert!(add_to_dest[0].has_signature);
        },
        RepoMovePlan::Aborted => panic!("move refused"),
    }
    let plan2 = move_packages_from_repo_to_repo(&profile("/s/s.db"), &files, &profile("/d/d.db"), "/d");
    assert!(db_changes_after_move(plan, false).is_none());
    let (rm, add) = db_changes_after_move(plan2, true).unwrap();
    assert_eq!(rm.len(), 1);
    assert_eq!(add.len(), 1);
    assert!(db_changes_after_move(RepoMovePlan::Aborted, true).is_none());
}

#[test]
fn checkup_report() {
    let db = vec![id("foo", "1.0", "1", "x86_64"), id("gone", "1", "1", "any")];
    let reference = vec![id("foo", "1.2", "1", "x86_64"), id("other", "9", "1", "any")];
    let files = vec![
        file("/r/foo-1.0-1-x86_64.pkg.tar.zst", false),
        file("/r/foo-1.1-1-x86_64.pkg.tar.zst", false),
    ];
    let r = do_repo_checkup(&files, &db, &reference);
    assert!(r.brand_new.is_empty());
    assert_eq!(paths(&r.new), vec!["/r/foo-1.1-1-x86_64.pkg.tar.zst"]);
    assert_eq!(paths(&r.outdated), vec!["/r/foo-1.0-1-x86_64.pkg.tar.zst"]);
    assert_eq!(r.stale, vec![id("gone", "1", "1", "any")]);
    assert_eq!(r.newer_in_reference, vec![id("foo", "1.2", "1", "x86_64")]);
}

#[test]
fn profiles_and_paths() {
    let config = Config {
        profiles: vec![
            NamedProfile { name: "main".to_owned(), profile: profile("/srv/repo/x86_64/main.db.tar.xz") },
            NamedProfile { name: "main".to_owned(), profile: profile("/other/x.db") },
            NamedProfile { name: "test".to_owned(), profile: profile("test.db") },
        ],
    };
    let p = get_profile_from_config("main", &config).unwrap();
    assert_eq!(p.repo, "/srv/repo/x86_64/main.db.tar.xz");
    assert!(get_profile_from_config("nope", &config).is_none());
    assert_eq!(get_repo_dir_from_profile(p), Some("/srv/repo/x86_64".to_owned()));
    assert_eq!(get_repo_dir_from_profile(&profile("test.db")), Some(".".to_owned()));
    assert_eq!(get_repo_dir_from_profile(&profile("/x.db")), Some("/".to_owned()));
    assert_eq!(get_repo_dir_from_profile(&profile("/")), None);
    assert_eq!(get_repo_dir_from_profile(&profile("")), None);
    assert_eq!(get_repo_dir_from_profile(&profile("a/b/")), Some("a".to_owned()));
    assert_eq!(get_repo_dir_from_profile(&profile("/x/")), Some("/".to_owned()));
    assert_eq!(get_repo_dir_from_profile(&profile("//")), None);
    assert_eq!(get_repo_db_prefix("/srv/repo/cachyos.db.tar.xz"), "cachyos");
    assert_eq!(get_repo_db_prefix("plain"), "plain");
}

#[test]
fn full_version_strings() {
    assert_eq!(vercmp("1.0-1", "1.0-2"), -1);
    assert_eq!(vercmp("1:1.0", "2.0"), 1);
    assert_eq!(vercmp("1.0", "1.0-1"), 0);
    assert_eq!(vercmp("1.0rc1", "1.0"), -1);
    assert_eq!(vercmp("1.0.1", "1.0"), 1);
    assert_eq!(vercmp("1.0-1", "1.0.1-1"), -1);
    assert_eq!(vercmp("2:1.0-1", "2:1.0-1"), 0);
    assert_eq!(vercmp("0:1.0-1", "1.0-1"), 0);
}

#[test]
fn reads_database_desc_text() {
    let text = "%FILENAME%\nfoo-1.0-1-x86_64.pkg.tar.zst\n\n%NAME%\nfoo\n\n%FILENAME%\nbar-2:3-4-any.pkg.tar.xz\n%FILENAME%\nnot-a-package\n%FILENAME%";
    assert_eq!(
        repoctl::dbfile::db_entries_from_desc(text),
        vec![id("foo", "1.0", "1", "x86_64"), id("bar", "2:3", "4", "any")]
    );
    assert!(repoctl::dbfile::db_entries_from_desc("").is_empty());
}
