use raw_pkg::config::{get, getconf, Config, Listing};
use raw_pkg::db::{
    conflict, db_dir_exec, db_path_exec, install, is_protected, libs, package_name, query,
    removal_targets, staging_dir_exec, staging_footprint_exec, Conflict, Installed,
};
use raw_pkg::meta::{meta_field, meta_text_exec, pkgfile_vars};
use raw_pkg::package::{
    archive_format, download_target, footprint, index_entry, is_gzip_archive, package,
    relative, source_step, source_steps, ArchiveFormat, Relative, SourceStep,
};
use raw_pkg::text::{
    after_char_exec, after_first_exec, before_char_exec, chars_of, concatenate, contains_exec, equal,
    find_char_exec, find_str, has_prefix_exec, has_suffix_exec, is_space_exec, join_lines_exec,
    last_segment_exec, lines_exec, slice, strip_cr_exec, trim_exec, words_exec,
};

fn t(s: &str) -> Vec<char> {
    s.chars().collect()
}

fn s(v: &Vec<char>) -> String {
    v.iter().collect()
}

fn all(v: &Vec<Vec<char>>) -> Vec<String> {
    v.iter().map(|x| s(x)).collect()
}

fn opt(v: &Option<Vec<char>>) -> Option<String> {
    v.as_ref().map(|x| s(x))
}

fn installed(name: &str, files: &str) -> Installed {
    Installed { name: t(name), files: t(files) }
}

// ----------------------------------------------------------------- text

#[test]
fn lines_follow_str_lines() {
    for input in [
        "a\nb\r\nc",
        "a\n",
        "",
        "\n",
        "a\r",
        "a\n\nb",
        "x\r\r\n",
        "\r\n\r\n",
        "one line",
        "tail\n\n",
        "é\nß\u{2028}x\n",
    ] {
        let got = all(&lines_exec(&t(input)));
        let want: Vec<String> = input.lines().map(|l| l.to_string()).collect();
        assert_eq!(got, want, "input {:?}", input);
    }
}

#[test]
fn lines_exact_values() {
    assert_eq!(all(&lines_exec(&t("a\nb\r\nc"))), vec!["a", "b", "c"]);
    assert_eq!(all(&lines_exec(&t("\n"))), vec![""]);
    assert_eq!(all(&lines_exec(&t("a\r"))), vec!["a\r"]);
    assert!(lines_exec(&t("")).is_empty());
}

#[test]
fn join_lines_writes_one_per_line() {
    let ls = vec![t("usr"), t("usr/bin"), t("")];
    assert_eq!(s(&join_lines_exec(&ls)), "usr\nusr/bin\n\n");
    assert_eq!(s(&join_lines_exec(&Vec::new())), "");
}

#[test]
fn words_follow_split_whitespace() {
    for input in ["  a b\tc \u{a0}d ", "", "   ", "x", "a\u{3000}b\u{2009}c\n\rd", "\u{85}q\u{1680}"] {
        let got = all(&words_exec(&t(input)));
        let want: Vec<String> = input.split_whitespace().map(|w| w.to_string()).collect();
        assert_eq!(got, want, "input {:?}", input);
    }
}

#[test]
fn space_matches_char_is_whitespace() {
    for u in 0u32..0x3100 {
        if let Some(c) = char::from_u32(u) {
            assert_eq!(is_space_exec(c), c.is_whitespace(), "char {:#x}", u);
        }
    }
}

#[test]
fn trim_follows_str_trim() {
    for input in [" \t x y \n", "", "   ", "abc", "\u{a0}a\u{2028}"] {
        assert_eq!(s(&trim_exec(&t(input))), input.trim());
    }
}

#[test]
fn last_segment_is_last_split_item() {
    for (input, c) in [("http://h/x/file.tar.gz", '/'), ("noslash", '/'), ("a/", '/'), ("", '/')] {
        assert_eq!(s(&last_segment_exec(&t(input), c)), input.split(c).last().unwrap());
    }
}

#[test]
fn split_once_halves() {
    assert_eq!(opt(&after_first_exec(&t("abcabc"), &t("bc"))), Some("abc".to_string()));
    assert_eq!(opt(&after_first_exec(&t("abcabc"), &t("zz"))), None);
    assert_eq!(opt(&after_first_exec(&t("abc"), &t(""))), Some("abc".to_string()));
    assert_eq!(opt(&after_first_exec(&t("ab"), &t("abc"))), None);
    assert_eq!(opt(&before_char_exec(&t("foo.1.tar"), '.')), Some("foo".to_string()));
    assert_eq!(opt(&after_char_exec(&t("foo.1.tar"), '.')), Some("1.tar".to_string()));
    assert_eq!(opt(&before_char_exec(&t("foo"), '.')), None);
    assert_eq!(opt(&after_char_exec(&t("foo"), '.')), None);
}

#[test]
fn search_and_compare() {
    assert_eq!(find_str(&t("hello world"), &t("o w")), Some(4));
    assert_eq!(find_str(&t("hello"), &t("")), Some(0));
    assert_eq!(find_str(&t("hello"), &t("xyz")), None);
    assert_eq!(find_char_exec(&t("abc"), 'c'), 2);
    assert_eq!(find_char_exec(&t("abc"), 'z'), 3);
    assert!(contains_exec(&t("libfoo.so.1"), &t(".so")));
    assert!(!contains_exec(&t("libfoo.a"), &t(".so")));
    assert!(has_prefix_exec(&t("foo-1.0"), &t("foo-")));
    assert!(!has_prefix_exec(&t("fo"), &t("foo-")));
    assert!(has_suffix_exec(&t("a.tar.gz"), &t(".tar.gz")));
    assert!(!has_suffix_exec(&t("a.tar.xz"), &t(".tar.gz")));
    assert!(equal(&t("abc"), &t("abc")));
    assert!(!equal(&t("abc"), &t("abd")));
    assert!(!equal(&t("abc"), &t("ab")));
    assert_eq!(s(&concatenate(&t("ab"), &t("cd"))), "abcd");
    assert_eq!(s(&slice(&t("abcdef"), 1, 4)), "bcd");
    assert_eq!(s(&chars_of("héllo")), "héllo");
    assert_eq!(s(&strip_cr_exec(t("a\r"))), "a");
    assert_eq!(s(&strip_cr_exec(t("a\r\r"))), "a\r");
    assert_eq!(s(&strip_cr_exec(t("a"))), "a");
}

// ----------------------------------------------------------------- meta

#[test]
fn pkgfile_vars_takes_six_lines() {
    let out = t("1.2\nfoo\nAlice\n1\nA tool\nhttps://x.org/foo-1.2.tar.gz foo.patch\n");
    let v = pkgfile_vars(&out).unwrap();
    assert_eq!(s(&v.version), "1.2");
    assert_eq!(s(&v.name), "foo");
    assert_eq!(s(&v.packager), "Alice");
    assert_eq!(s(&v.release), "1");
    assert_eq!(s(&v.description), "A tool");
    assert_eq!(s(&v.source), "https://x.org/foo-1.2.tar.gz foo.patch");
    assert!(pkgfile_vars(&t("1\n2\n3\n4\n5\n")).is_none());
    assert!(pkgfile_vars(&t("1\n2\n3\n4\n5\n6\n7")).is_some());
}

#[test]
fn meta_text_format() {
    let v = pkgfile_vars(&t("1.2\nfoo\nAlice\n1\nA tool\nsrc")).unwrap();
    let m = meta_text_exec(&v, &t("core"));
    assert_eq!(s(&m), "Nfoo\nV1.2\nr1\nccore\nDA tool\nPAlice");
    assert_eq!(
        s(&m),
        format!("N{}\nV{}\nr{}\nc{}\nD{}\nP{}", "foo", "1.2", "1", "core", "A tool", "Alice")
    );
}

#[test]
fn meta_field_reads_first_tagged_line() {
    let m = t("Nfoo\nV1.2\nr1\nccore\nDA tool\nPAlice");
    assert_eq!(opt(&meta_field(&m, 'N')), Some("foo".to_string()));
    assert_eq!(opt(&meta_field(&m, 'V')), Some("1.2".to_string()));
    assert_eq!(opt(&meta_field(&m, 'D')), Some("A tool".to_string()));
    assert_eq!(opt(&meta_field(&m, 'P')), Some("Alice".to_string()));
    assert_eq!(opt(&meta_field(&m, 'R')), None);
    assert_eq!(opt(&meta_field(&t("Rdep1\nRdep2"), 'R')), Some("dep1".to_string()));
    assert_eq!(opt(&meta_field(&t("NN"), 'N')), Some("N".to_string()));
    assert_eq!(opt(&meta_field(&t(""), 'N')), None);
}

#[test]
fn law_meta_read_back_example() {
    let v = pkgfile_vars(&t("0.9\nbar\nBob\n3\nsome text\nsrc")).unwrap();
    let m = meta_text_exec(&v, &t("extra"));
    assert_eq!(opt(&meta_field(&m, 'N')), Some("bar".to_string()));
    assert_eq!(opt(&meta_field(&m, 'V')), Some("0.9".to_string()));
    assert_eq!(opt(&meta_field(&m, 'r')), Some("3".to_string()));
    assert_eq!(opt(&meta_field(&m, 'c')), Some("extra".to_string()));
    assert_eq!(opt(&meta_field(&m, 'D')), Some("some text".to_string()));
    assert_eq!(opt(&meta_field(&m, 'P')), Some("Bob".to_string()));
}

// ----------------------------------------------------------------- package

#[test]
fn sources_are_fetched_or_copied() {
    let steps = source_steps(&t(
        "https://x.org/a-1.tar.gz  local.patch\thttps://x.org/p/fix.patch.gz",
    ));
    assert_eq!(steps.len(), 3);
    match &steps[0] {
        SourceStep::Fetch { url, file, unpack } => {
            assert_eq!(s(url), "https://x.org/a-1.tar.gz");
            assert_eq!(s(file), "a-1.tar.gz");
            assert!(*unpack);
        }
        _ => panic!("expected a download"),
    }
    match &steps[1] {
        SourceStep::Copy { file } => assert_eq!(s(file), "local.patch"),
        _ => panic!("expected a copy"),
    }
    match &steps[2] {
        SourceStep::Fetch { file, unpack, .. } => {
            assert_eq!(s(file), "fix.patch.gz");
            assert!(!*unpack);
        }
        _ => panic!("expected a download"),
    }
    assert!(source_steps(&t("   ")).is_empty());
    assert!(matches!(source_step(t("ftp://x/a")), SourceStep::Copy { .. }));
}

#[test]
fn download_target_is_last_url_segment() {
    assert_eq!(s(&download_target(&t("https://x.org/a/b-1.0.tar.xz"))), "b-1.0.tar.xz");
    assert_eq!(s(&download_target(&t("https://x.org/"))), "");
}

#[test]
fn relative_paths_under_the_tree() {
    let base = t("/home/u/foo/pkg");
    assert!(matches!(relative(&t("/home/u/foo/pkg"), &base), Relative::Base));
    match relative(&t("/home/u/foo/pkg/usr/bin"), &base) {
        Relative::Below(l) => assert_eq!(s(&l), "usr/bin"),
        _ => panic!("expected an entry"),
    }
    assert!(matches!(relative(&t("/other/x"), &base), Relative::Unrelated));
    assert!(matches!(relative(&t("/home/u/foo/pkgx"), &base), Relative::Unrelated));
}

#[test]
fn footprint_of_a_tree() {
    let base = t("/b/foo/pkg");
    let entries = vec![t("/b/foo/pkg"), t("/b/foo/pkg/usr"), t("/b/foo/pkg/usr/bin/foo")];
    assert_eq!(opt(&footprint(&entries, &base)), Some("usr\nusr/bin/foo\n".to_string()));
    let bad = vec![t("/b/foo/pkg/usr"), t("/elsewhere")];
    assert_eq!(opt(&footprint(&bad, &base)), None);
    assert_eq!(opt(&footprint(&Vec::new(), &base)), Some(String::new()));
}

#[test]
fn index_entries_below_root() {
    assert_eq!(
        opt(&index_entry(&t("/ports/core/foo"), &t(" /ports \n"))),
        Some("core/foo".to_string())
    );
    assert_eq!(opt(&index_entry(&t("/elsewhere/x"), &t("/ports"))), None);
    assert_eq!(opt(&index_entry(&t("/ports"), &t("/ports"))), None);
}

#[test]
fn archive_formats_by_suffix() {
    assert_eq!(archive_format(&t("a.tar.gz")), Some(ArchiveFormat::Gzip));
    assert_eq!(archive_format(&t("a.tgz")), Some(ArchiveFormat::Gzip));
    assert_eq!(archive_format(&t("a.tar.xz")), Some(ArchiveFormat::Xz));
    assert_eq!(archive_format(&t("a.tar.bz2")), Some(ArchiveFormat::Bzip2));
    assert_eq!(archive_format(&t("a.tar.zst")), Some(ArchiveFormat::Zstd));
    assert_eq!(archive_format(&t("a.zip")), None);
    assert!(is_gzip_archive(&t("foo.1.raw.tar.gz")));
    assert!(!is_gzip_archive(&t("foo.1.raw.tar.xz")));
}

#[test]
fn law_installable_is_gzip_example() {
    for n in ["a.tar.gz", "a.tgz", "a.tar.xz", "b", ".tgz"] {
        assert_eq!(is_gzip_archive(&t(n)), archive_format(&t(n)) == Some(ArchiveFormat::Gzip));
    }
}

#[test]
fn package_plan_names() {
    let out = t("1.2\nfoo\nAlice\n1\nA tool\nhttps://x.org/foo-1.2.tar.gz foo.patch");
    let p = package(&out, &t("core"), &t("/ports/core")).unwrap();
    assert_eq!(s(&p.meta), "Nfoo\nV1.2\nr1\nccore\nDA tool\nPAlice");
    assert_eq!(p.steps.len(), 2);
    assert_eq!(s(&p.work_dir), "/ports/core/work");
    assert_eq!(s(&p.pkg_dir), "/ports/core/pkg");
    assert_eq!(s(&p.footprint_file), "foo.footprint");
    assert_eq!(s(&p.archive_file), "foo.1.2.raw.tar.gz");
    assert_eq!(s(&p.pre_install), "foo.pre-install");
    assert_eq!(s(&p.post_install), "foo.post-install");
    assert!(package(&t("1\n2"), &t("c"), &t("/c")).is_none());
}

// ----------------------------------------------------------------- db

#[test]
fn package_names_of_archives() {
    assert_eq!(opt(&package_name(&t("foo.1.0.raw.tar.gz"))), Some("foo".to_string()));
    assert_eq!(opt(&package_name(&t("foo"))), None);
    assert_eq!(opt(&package_name(&t(".hidden"))), Some(String::new()));
}

#[test]
fn database_paths() {
    assert_eq!(s(&db_dir_exec(&t("foo"))), "/var/lib/pkg/DB/foo");
    assert_eq!(s(&db_path_exec(&t("foo"), &t("files"))), "/var/lib/pkg/DB/foo/files");
    assert_eq!(s(&staging_dir_exec(&t("foo"))), "/tmp/foo");
    assert_eq!(s(&staging_footprint_exec(&t("foo"))), "/tmp/foo/foo.footprint");
}

#[test]
fn install_plan_paths() {
    let p = install(&t("foo.1.0.raw.tar.gz")).unwrap();
    assert_eq!(s(&p.package), "foo");
    assert!(p.gzip);
    assert_eq!(s(&p.db_dir), "/var/lib/pkg/DB/foo");
    assert_eq!(s(&p.db_archive), "/var/lib/pkg/DB/foo/foo.1.0.raw.tar.gz");
    assert_eq!(s(&p.pre_install), "foo.pre-install");
    assert_eq!(
        s(&p.pre_install_command),
        "chmod u+x foo.pre-install && ./foo.pre-install"
    );
    assert_eq!(s(&p.post_install), "foo.post-install");
    assert_eq!(
        s(&p.post_install_command),
        "chmod u+x foo.post-install && ./foo.post-install"
    );
    assert_eq!(s(&p.db_meta), "/var/lib/pkg/DB/foo/META");
    assert_eq!(s(&p.db_files), "/var/lib/pkg/DB/foo/files");
    assert_eq!(s(&p.footprint), "/foo.footprint");
    assert_eq!(s(&p.root_archive), "/foo.1.0.raw.tar.gz");
    assert_eq!(s(&p.root_pre_install), "/foo.pre-install");
    assert_eq!(s(&p.root_post_install), "/foo.post-install");
    assert!(!install(&t("bar.1.zip")).unwrap().gzip);
    assert!(install(&t("nodot")).is_none());
}

#[test]
fn law_built_archive_installs_by_name_example() {
    let out = t("2.0\nzlib\nP\n1\nd\ns");
    let plan = package(&out, &t("core"), &t("/p/core")).unwrap();
    let inst = install(&plan.archive_file).unwrap();
    assert_eq!(s(&inst.package), "zlib");
    assert!(inst.gzip);
    assert_eq!(s(&inst.footprint), format!("/{}", s(&plan.footprint_file)));
    assert_eq!(s(&inst.pre_install), s(&plan.pre_install));
    assert_eq!(s(&inst.post_install), s(&plan.post_install));
}

#[test]
fn removal_spares_protected_directories() {
    let files = t("bin\nusr\nusr/bin/x\nlib\nlib64\nsbin\netc/x\n");
    assert_eq!(all(&removal_targets(&files)), vec!["/usr", "/usr/bin/x", "/etc/x"]);
    assert!(removal_targets(&t("")).is_empty());
    assert!(is_protected(&t("lib64")));
    assert!(!is_protected(&t("lib32")));
}

#[test]
fn law_removal_targets_example() {
    let files = t("a\nbin\nb/c\nsbin\n");
    let targets = all(&removal_targets(&files));
    for line in ["a", "b/c"] {
        assert!(targets.contains(&format!("/{}", line)));
    }
    for p in ["/bin", "/sbin", "/lib", "/lib64"] {
        assert!(!targets.contains(&p.to_string()));
    }
}

#[test]
fn query_lists_owners() {
    let db = vec![
        installed("foo", "usr\nusr/bin/foo\n"),
        installed("bar", "usr\nusr/lib/bar.so\nusr\n"),
    ];
    assert_eq!(all(&query(&t("/usr"), &db).unwrap()), vec!["foo", "bar", "bar"]);
    assert_eq!(all(&query(&t("/usr/bin/foo"), &db).unwrap()), vec!["foo"]);
    assert!(query(&t("/nothing"), &db).unwrap().is_empty());
    assert!(query(&t("no-slash"), &db).is_none());
    assert_eq!(all(&query(&t("x/usr"), &db).unwrap()), vec!["foo", "bar", "bar"]);
}

#[test]
fn law_owner_found_example() {
    let db = vec![installed("foo", "a\nb\n"), installed("bar", "c\nb\n")];
    for (k, entry) in db.iter().enumerate() {
        for line in lines_exec(&entry.files) {
            let path = format!("/{}", s(&line));
            let owners = all(&query(&t(&path), &db).unwrap());
            assert!(owners.contains(&s(&db[k].name)));
        }
    }
}

#[test]
fn libs_filters_shared_objects() {
    let files = t("usr/lib/libfoo.so\nusr/lib/security/pam_x.so\nusr/bin/foo\nusr/lib/libfoo.so.1\n");
    assert_eq!(
        all(&libs(&files, &None)),
        vec!["usr/lib/libfoo.so", "usr/lib/libfoo.so.1"]
    );
    assert_eq!(
        all(&libs(&files, &Some(t("all")))),
        vec!["usr/lib/libfoo.so", "usr/lib/security/pam_x.so", "usr/lib/libfoo.so.1"]
    );
    assert_eq!(all(&libs(&files, &Some(t("other")))).len(), 2);
}

#[test]
fn conflict_owned_file() {
    let fp = t("usr\nusr/bin/foo\nusr/share/info/dir\n");
    let db = vec![
        installed("a", "usr\nusr/share/info/dir\n"),
        installed("b", "usr\nusr/bin/foo\n"),
    ];
    let packaged = vec![false, true, true];
    let present = vec![false, true, true];
    match conflict(&fp, &db, &packaged, &present) {
        Conflict::Owned { package, entry, line } => {
            assert_eq!((package, entry, line), (1, 1, 1));
        }
        _ => panic!("expected an owned file"),
    }
}

#[test]
fn conflict_first_in_order() {
    let fp = t("x\ny\n");
    let db = vec![installed("a", "y\nx\n")];
    match conflict(&fp, &db, &vec![true, true], &vec![false, false]) {
        Conflict::Owned { package, entry, line } => {
            assert_eq!((package, entry, line), (0, 0, 1));
        }
        _ => panic!("expected an owned file"),
    }
}

#[test]
fn conflict_file_already_present() {
    let fp = t("usr\nusr/share/info/dir\netc/foo.conf\nusr/bin/foo\n");
    let db = vec![installed("a", "usr\nusr/share/info/dir\n")];
    let packaged = vec![false, true, true, true];
    let present = vec![false, true, false, true];
    match conflict(&fp, &db, &packaged, &present) {
        Conflict::Present { line } => assert_eq!(line, 1),
        _ => panic!("expected a present file"),
    }
}

#[test]
fn conflict_clear() {
    let fp = t("usr\n\nusr/bin/new\n");
    let db = vec![installed("a", "usr\n\n")];
    let packaged = vec![false, true, true];
    let present = vec![false, false, false];
    assert!(matches!(conflict(&fp, &db, &packaged, &present), Conflict::Clear));
    assert!(matches!(conflict(&t(""), &Vec::new(), &Vec::new(), &Vec::new()), Conflict::Clear));
}

// ----------------------------------------------------------------- config

#[test]
fn config_modes() {
    match getconf(&t("mode binary\nurl https://repo.example/x\n")) {
        Some(Config::Binary { repo }) => assert_eq!(s(&repo), " https://repo.example/x\n"),
        _ => panic!("expected binary mode"),
    }
    match getconf(&t("mode source\nroot /usr/ports\n")) {
        Some(Config::Source { root }) => assert_eq!(s(&root), " /usr/ports\n"),
        _ => panic!("expected source mode"),
    }
    assert!(matches!(getconf(&t("nothing here")), Some(Config::Unspecified)));
    assert!(getconf(&t("mode binary\n")).is_none());
    assert!(getconf(&t("mode source\n")).is_none());
}

#[test]
fn repository_listing() {
    let md = t("bar-1.0.raw.tar.gz\nfoo-2.1.raw.tar.gz\nfoo-3.0.raw.tar.gz\n");
    match get(&md, &t("foo")) {
        Listing::Entry(e) => assert_eq!(s(&e), "foo-2.1.raw.tar.gz"),
        _ => panic!("expected an entry"),
    }
    assert!(matches!(get(&md, &t("baz")), Listing::Missing));
    assert!(matches!(get(&md, &t("raw")), Listing::NoEntry));
}

// ----------------------------------------------------------------- laws

#[test]
fn law_footprint_read_back_example() {
    let entries = vec![t("usr"), t(""), t("usr/bin/x y"), t("é")];
    let text = join_lines_exec(&entries);
    assert_eq!(all(&lines_exec(&text)), all(&entries));
}

#[test]
fn law_query_target_of_rooted_example() {
    for l in ["usr/bin/x", "", "a/b/c"] {
        assert_eq!(opt(&after_char_exec(&t(&format!("/{}", l)), '/')), Some(l.to_string()));
    }
}

#[test]
fn law_footprint_entry_of_walked_path_example() {
    let base = t("/b/x/pkg");
    assert!(matches!(relative(&base, &base), Relative::Base));
    for rel in ["usr", "usr/bin/x", "", "pkg/b/x/pkg"] {
        match relative(&t(&format!("/b/x/pkg/{}", rel)), &base) {
            Relative::Below(l) => assert_eq!(s(&l), rel),
            _ => panic!("expected an entry"),
        }
    }
}

#[test]
fn law_index_entry_of_port_example() {
    for root in ["/ports", "  /ports\n", "\t/ports "] {
        assert_eq!(
            opt(&index_entry(&t("/ports/core/zlib"), &t(root))),
            Some("core/zlib".to_string())
        );
    }
}

#[test]
fn law_lines_are_newline_free_example() {
    for text in ["a\nb\r\n\nc", "\n\n", "x"] {
        for l in lines_exec(&t(text)) {
            assert!(!l.contains(&'\n'));
        }
    }
}
