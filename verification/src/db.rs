//! The package database under `/var/lib/pkg/DB/`: where an archive is
//! installed, which files a removal deletes, who owns a file, which
//! libraries a package ships, and whether a new package conflicts with the
//! installed ones.
use vstd::prelude::*;
use crate::package::{footprint_name, gzip_name, is_gzip_archive, post_install_name, pre_install_name};
use crate::text::{
    before_char, before_char_exec, chars_of, concatenate, contains, contains_exec, equal, lines,
    lines_exec, after_char, after_char_exec, texts,
};

verus! {

// ---------------------------------------------------------------------------
// Names and paths
// ---------------------------------------------------------------------------

/// The name of the package in the archive `raw`: what precedes the first
/// `.` of the archive's name.
pub fn package_name(raw: &Vec<char>) -> (r: Option<Vec<char>>)
    ensures
        r is Some <==> before_char(raw@, '.') is Some,
        r matches Some(p) ==> before_char(raw@, '.') == Some(p@),
{
    before_char_exec(raw, '.')
}

/// The database directory of the package `pkg`.
pub open spec fn db_dir(pkg: Seq<char>) -> Seq<char> {
    "/var/lib/pkg/DB/"@ + pkg
}

/// The file `leaf` in the database directory of `pkg`.
pub open spec fn db_path(pkg: Seq<char>, leaf: Seq<char>) -> Seq<char> {
    db_dir(pkg) + seq!['/'] + leaf
}

/// The path of the database directory of `pkg`.
pub fn db_dir_exec(pkg: &Vec<char>) -> (r: Vec<char>)
    ensures
        r@ == db_dir(pkg@),
{
    concatenate(&chars_of("/var/lib/pkg/DB/"), pkg)
}

/// The path of the file `leaf` in the database directory of `pkg`.
pub fn db_path_exec(pkg: &Vec<char>, leaf: &Vec<char>) -> (r: Vec<char>)
    ensures
        r@ == db_path(pkg@, leaf@),
{
    let dir = db_dir_exec(pkg);
    let r = concatenate(&concatenate(&dir, &vec!['/']), leaf);
    assert(r@ =~= db_path(pkg@, leaf@));
    r
}

/// The directory an archive is unpacked in to be checked: `/tmp/<pkg>`.
pub open spec fn staging_dir(pkg: Seq<char>) -> Seq<char> {
    "/tmp/"@ + pkg
}

/// The footprint of an archive unpacked to be checked:
/// `/tmp/<pkg>/<pkg>.footprint`.
pub open spec fn staging_footprint(pkg: Seq<char>) -> Seq<char> {
    staging_dir(pkg) + seq!['/'] + footprint_name(pkg)
}

/// The directory the archive of `pkg` is unpacked in to be checked.
pub fn staging_dir_exec(pkg: &Vec<char>) -> (r: Vec<char>)
    ensures
        r@ == staging_dir(pkg@),
{
    concatenate(&chars_of("/tmp/"), pkg)
}

/// The footprint of the archive of `pkg`, unpacked to be checked.
pub fn staging_footprint_exec(pkg: &Vec<char>) -> (r: Vec<char>)
    ensures
        r@ == staging_footprint(pkg@),
{
    let dir = staging_dir_exec(pkg);
    let name = concatenate(pkg, &chars_of(".footprint"));
    let r = concatenate(&concatenate(&dir, &vec!['/']), &name);
    assert(r@ =~= staging_footprint(pkg@));
    r
}

/// The command that makes the script `script` executable and runs it.
pub open spec fn script_command(script: Seq<char>) -> Seq<char> {
    "chmod u+x "@ + script + " && ./"@ + script
}

/// Everything an installation of an archive decides about names and paths.
pub struct InstallPlan {
    /// The package name.
    pub package: Vec<char>,
    /// Whether the archive is a gzipped tar (the only kind installed).
    pub gzip: bool,
    /// The package's database directory.
    pub db_dir: Vec<char>,
    /// Where the archive is copied and unpacked: `<db_dir>/<archive>`.
    pub db_archive: Vec<char>,
    /// The pre-install script: `<package>.pre-install`.
    pub pre_install: Vec<char>,
    /// The command that runs the pre-install script.
    pub pre_install_command: Vec<char>,
    /// The post-install script: `<package>.post-install`.
    pub post_install: Vec<char>,
    /// The command that runs the post-install script.
    pub post_install_command: Vec<char>,
    /// The installed META file's database copy: `<db_dir>/META`.
    pub db_meta: Vec<char>,
    /// The installed footprint's database copy: `<db_dir>/files`.
    pub db_files: Vec<char>,
    /// The footprint as copied to the root: `/<package>.footprint`.
    pub footprint: Vec<char>,
    /// The archive as copied to the root: `/<archive>`.
    pub root_archive: Vec<char>,
    /// The pre-install script as copied to the root.
    pub root_pre_install: Vec<char>,
    /// The post-install script as copied to the root.
    pub root_post_install: Vec<char>,
}

/// `p` is the plan for installing the archive named `raw`.
pub open spec fn install_plan_for(p: InstallPlan, raw: Seq<char>) -> bool {
    let pkg = p.package@;
    &&& before_char(raw, '.') == Some(pkg)
    &&& p.gzip == gzip_name(raw)
    &&& p.db_dir@ == db_dir(pkg)
    &&& p.db_archive@ == db_path(pkg, raw)
    &&& p.pre_install@ == pre_install_name(pkg)
    &&& p.pre_install_command@ == script_command(pre_install_name(pkg))
    &&& p.post_install@ == post_install_name(pkg)
    &&& p.post_install_command@ == script_command(post_install_name(pkg))
    &&& p.db_meta@ == db_path(pkg, "META"@)
    &&& p.db_files@ == db_path(pkg, "files"@)
    &&& p.footprint@ == seq!['/'] + footprint_name(pkg)
    &&& p.root_archive@ == seq!['/'] + raw
    &&& p.root_pre_install@ == seq!['/'] + pre_install_name(pkg)
    &&& p.root_post_install@ == seq!['/'] + post_install_name(pkg)
}

/// The command that makes `script` executable and runs it.
fn script_command_exec(script: &Vec<char>) -> (r: Vec<char>)
    ensures
        r@ == script_command(script@),
{
    let a = concatenate(&chars_of("chmod u+x "), script);
    let b = concatenate(&a, &chars_of(" && ./"));
    concatenate(&b, script)
}

/// `/` followed by `s`.
fn rooted(s: &Vec<char>) -> (r: Vec<char>)
    ensures
        r@ == seq!['/'] + s@,
{
    concatenate(&vec!['/'], s)
}

/// The plan for installing the archive named `raw`; `None` when its name
/// holds no `.`.
pub fn install(raw: &Vec<char>) -> (r: Option<InstallPlan>)
    ensures
        r is Some <==> before_char(raw@, '.') is Some,
        r matches Some(p) ==> install_plan_for(p, raw@),
{
    let package = match package_name(raw) {
        None => {
            return None;
        },
        Some(p) => p,
    };
    let gzip = is_gzip_archive(raw);
    let db_dir = db_dir_exec(&package);
    let db_archive = db_path_exec(&package, raw);
    let pre_install = concatenate(&package, &chars_of(".pre-install"));
    let pre_install_command = script_command_exec(&pre_install);
    let post_install = concatenate(&package, &chars_of(".post-install"));
    let post_install_command = script_command_exec(&post_install);
    let db_meta = db_path_exec(&package, &chars_of("META"));
    let db_files = db_path_exec(&package, &chars_of("files"));
    let footprint = rooted(&concatenate(&package, &chars_of(".footprint")));
    let root_archive = rooted(raw);
    let root_pre_install = rooted(&pre_install);
    let root_post_install = rooted(&post_install);
    Some(
        InstallPlan {
            package,
            gzip,
            db_dir,
            db_archive,
            pre_install,
            pre_install_command,
            post_install,
            post_install_command,
            db_meta,
            db_files,
            footprint,
            root_archive,
            root_pre_install,
            root_post_install,
        },
    )
}

// ---------------------------------------------------------------------------
// Removal
// ---------------------------------------------------------------------------

/// The top-level directories that a removal never deletes.
pub open spec fn protected(l: Seq<char>) -> bool {
    l == "bin"@ || l == "lib"@ || l == "lib64"@ || l == "sbin"@
}

/// The paths a removal deletes for the footprint lines `ls`, in order: `/`
/// followed by each line that is not protected.
pub open spec fn removal_spec(ls: Seq<Seq<char>>) -> Seq<Seq<char>>
    decreases ls.len(),
{
    if ls.len() == 0 {
        seq![]
    } else if protected(ls.last()) {
        removal_spec(ls.drop_last())
    } else {
        removal_spec(ls.drop_last()).push(seq!['/'] + ls.last())
    }
}

/// Whether the footprint line `l` names a protected directory.
pub fn is_protected(l: &Vec<char>) -> (r: bool)
    ensures
        r == protected(l@),
        r == (l@ == "bin"@ || l@ == "lib"@ || l@ == "lib64"@ || l@ == "sbin"@),
{
    equal(l, &chars_of("bin")) || equal(l, &chars_of("lib")) || equal(l, &chars_of("lib64"))
        || equal(l, &chars_of("sbin"))
}

/// The paths that removing a package deletes, given its footprint: each
/// line that is not a protected directory, made absolute.
pub fn removal_targets(files: &Vec<char>) -> (r: Vec<Vec<char>>)
    ensures
        texts(r@) == removal_spec(lines(files@)),
{
    let ls = lines_exec(files);
    let ghost all = texts(ls@);
    let mut r: Vec<Vec<char>> = Vec::new();
    let mut i: usize = 0;
    assert(all.take(0) =~= Seq::<Seq<char>>::empty());
    while i < ls.len()
        invariant
            all == texts(ls@),
            all == lines(files@),
            i <= ls.len(),
            texts(r@) == removal_spec(all.take(i as int)),
        decreases ls.len() - i,
    {
        assert(all.take(i + 1).drop_last() =~= all.take(i as int));
        assert(all.take(i + 1).last() == ls@[i as int]@);
        if !is_protected(&ls[i]) {
            let t = rooted(&ls[i]);
            let ghost before = texts(r@);
            r.push(t);
            assert(texts(r@) =~= before.push(t@));
        }
        i = i + 1;
    }
    assert(all.take(ls.len() as int) =~= all);
    r
}

// ---------------------------------------------------------------------------
// Owners
// ---------------------------------------------------------------------------

/// An installed package: its name and the text of its footprint.
pub struct Installed {
    pub name: Vec<char>,
    pub files: Vec<char>,
}

/// `name` once for each of the lines `ls` that equals `target`.
pub open spec fn name_per_match(name: Seq<char>, ls: Seq<Seq<char>>, target: Seq<char>) -> Seq<
    Seq<char>,
>
    decreases ls.len(),
{
    if ls.len() == 0 {
        seq![]
    } else if ls.last() == target {
        name_per_match(name, ls.drop_last(), target).push(name)
    } else {
        name_per_match(name, ls.drop_last(), target)
    }
}

/// The owners of `target`: for each installed package in order, its name
/// once for each of its footprint lines that equals `target`.
pub open spec fn owners(db: Seq<Installed>, target: Seq<char>) -> Seq<Seq<char>>
    decreases db.len(),
{
    if db.len() == 0 {
        seq![]
    } else {
        owners(db.drop_last(), target) + name_per_match(
            db.last().name@,
            lines(db.last().files@),
            target,
        )
    }
}

/// The footprint line a path is looked up as: what follows its first `/`.
pub open spec fn query_target(path: Seq<char>) -> Option<Seq<char>> {
    after_char(path, '/')
}

/// The packages that own `path`, once per footprint line that names it;
/// `None` when the path holds no `/`.
pub fn query(path: &Vec<char>, db: &Vec<Installed>) -> (r: Option<Vec<Vec<char>>>)
    ensures
        r is Some <==> query_target(path@) is Some,
        r matches Some(o) ==> texts(o@) == owners(db@, query_target(path@).unwrap()),
{
    let target = match after_char_exec(path, '/') {
        None => {
            return None;
        },
        Some(t) => t,
    };
    let mut r: Vec<Vec<char>> = Vec::new();
    let mut i: usize = 0;
    assert(db@.take(0) =~= Seq::<Installed>::empty());
    while i < db.len()
        invariant
            i <= db.len(),
            texts(r@) == owners(db@.take(i as int), target@),
        decreases db.len() - i,
    {
        let entry = &db[i];
        let ls = lines_exec(&entry.files);
        let ghost all = texts(ls@);
        let ghost prior = texts(r@);
        let mut j: usize = 0;
        assert(all.take(0) =~= Seq::<Seq<char>>::empty());
        assert(prior + name_per_match(entry.name@, all.take(0), target@) =~= prior);
        while j < ls.len()
            invariant
                all == texts(ls@),
                all == lines(entry.files@),
                j <= ls.len(),
                texts(r@) == prior + name_per_match(entry.name@, all.take(j as int), target@),
            decreases ls.len() - j,
        {
            assert(all.take(j + 1).drop_last() =~= all.take(j as int));
            assert(all.take(j + 1).last() == ls@[j as int]@);
            if equal(&ls[j], &target) {
                let n = concatenate(&entry.name, &Vec::new());
                assert(n@ =~= entry.name@);
                let ghost before = texts(r@);
                r.push(n);
                assert(texts(r@) =~= before.push(n@));
            }
            j = j + 1;
        }
        assert(all.take(ls.len() as int) =~= all);
        assert(db@.take(i + 1).drop_last() =~= db@.take(i as int));
        assert(db@.take(i + 1).last() == db@[i as int]);
        i = i + 1;
    }
    assert(db@.take(db.len() as int) =~= db@);
    Some(r)
}

// ---------------------------------------------------------------------------
// Libraries
// ---------------------------------------------------------------------------

/// A footprint line that is listed as a library: it holds `.so`, and,
/// unless all are asked for, does not hold `security`.
pub open spec fn library_line(l: Seq<char>, all: bool) -> bool {
    contains(l, ".so"@) && (all || !contains(l, "security"@))
}

/// The library lines among `ls`, in order.
pub open spec fn library_lines(ls: Seq<Seq<char>>, all: bool) -> Seq<Seq<char>>
    decreases ls.len(),
{
    if ls.len() == 0 {
        seq![]
    } else if library_line(ls.last(), all) {
        library_lines(ls.drop_last(), all).push(ls.last())
    } else {
        library_lines(ls.drop_last(), all)
    }
}

/// The option that asks for all libraries: `all`.
pub open spec fn asks_all(option: Option<Seq<char>>) -> bool {
    option == Some("all"@)
}

/// The libraries in a package's footprint: its lines that hold `.so`; with
/// the option `all` every one of them, otherwise those that do not hold
/// `security`.
pub fn libs(files: &Vec<char>, option: &Option<Vec<char>>) -> (r: Vec<Vec<char>>)
    ensures
        texts(r@) == library_lines(
            lines(files@),
            asks_all(
                match option {
                    Some(o) => Some(o@),
                    None => None,
                },
            ),
        ),
{
    let all_option = match option {
        Some(o) => equal(o, &chars_of("all")),
        None => false,
    };
    let so = chars_of(".so");
    let security = chars_of("security");
    let ls = lines_exec(files);
    let ghost all = texts(ls@);
    let mut r: Vec<Vec<char>> = Vec::new();
    let mut i: usize = 0;
    assert(all.take(0) =~= Seq::<Seq<char>>::empty());
    while i < ls.len()
        invariant
            all == texts(ls@),
            all == lines(files@),
            so@ == ".so"@,
            security@ == "security"@,
            i <= ls.len(),
            texts(r@) == library_lines(all.take(i as int), all_option),
        decreases ls.len() - i,
    {
        assert(all.take(i + 1).drop_last() =~= all.take(i as int));
        assert(all.take(i + 1).last() == ls@[i as int]@);
        if contains_exec(&ls[i], &so) && (all_option || !contains_exec(&ls[i], &security)) {
            let l = concatenate(&ls[i], &Vec::new());
            assert(l@ =~= ls@[i as int]@);
            let ghost before = texts(r@);
            r.push(l);
            assert(texts(r@) =~= before.push(l@));
        }
        i = i + 1;
    }
    assert(all.take(ls.len() as int) =~= all);
    r
}

// ---------------------------------------------------------------------------
// Conflicts
// ---------------------------------------------------------------------------

/// The outcome of checking a package against the installed ones.
pub enum Conflict {
    /// Line `line` of the new footprint is line `entry` of the footprint of
    /// installed package `package`, and names a file of the new package.
    Owned { package: usize, entry: usize, line: usize },
    /// No installed package owns a new file, but the file of line `line`
    /// is already on the system.
    Present { line: usize },
    /// Neither.
    Clear,
}

/// Line `c` of the new footprint `fp` is line `t` of the footprint of
/// installed package `k`, is not empty, is a file of the new package, and
/// is not `/usr/share/info/dir` once made absolute.
pub open spec fn owned_at(
    fp: Seq<Seq<char>>,
    db: Seq<Installed>,
    packaged: Seq<bool>,
    k: int,
    t: int,
    c: int,
) -> bool {
    &&& 0 <= k < db.len()
    &&& 0 <= t < lines(db[k].files@).len()
    &&& 0 <= c < fp.len()
    &&& fp[c] == lines(db[k].files@)[t]
    &&& fp[c].len() > 0
    &&& packaged[c]
    &&& seq!['/'] + fp[c] != "/usr/share/info/dir"@
}

/// `(k2, t2, c2)` comes before `(k, t, c)`: packages first, then their
/// lines, then the new footprint's lines.
pub open spec fn before(k2: int, t2: int, c2: int, k: int, t: int, c: int) -> bool {
    k2 < k || (k2 == k && (t2 < t || (t2 == t && c2 < c)))
}

/// No owned file comes before `(k, t, c)`.
pub open spec fn none_owned_before(
    fp: Seq<Seq<char>>,
    db: Seq<Installed>,
    packaged: Seq<bool>,
    k: int,
    t: int,
    c: int,
) -> bool {
    forall|k2: int, t2: int, c2: int| #[trigger]
        owned_at(fp, db, packaged, k2, t2, c2) ==> !before(k2, t2, c2, k, t, c)
}

/// Whether the package with footprint `footprint` conflicts with the
/// installed packages `db`. `packaged[c]` tells whether line `c` of the
/// footprint is a regular file in the unpacked package, `present[c]`
/// whether `/` followed by it is a regular file on the system. The first
/// owned file, in the order of the packages, their lines and the new lines,
/// is reported; failing that, the first new file already present.
pub fn conflict(
    footprint: &Vec<char>,
    db: &Vec<Installed>,
    packaged: &Vec<bool>,
    present: &Vec<bool>,
) -> (r: Conflict)
    requires
        packaged.len() == lines(footprint@).len(),
        present.len() == lines(footprint@).len(),
    ensures
        ({
            let fp = lines(footprint@);
            match r {
                Conflict::Owned { package, entry, line } => {
                    &&& owned_at(fp, db@, packaged@, package as int, entry as int, line as int)
                    &&& none_owned_before(
                        fp,
                        db@,
                        packaged@,
                        package as int,
                        entry as int,
                        line as int,
                    )
                },
                Conflict::Present { line } => {
                    &&& forall|k: int, t: int, c: int| !owned_at(fp, db@, packaged@, k, t, c)
                    &&& 0 <= line < fp.len()
                    &&& present@[line as int]
                    &&& forall|c: int| 0 <= c < line ==> !present@[c]
                },
                Conflict::Clear => {
                    &&& forall|k: int, t: int, c: int| !owned_at(fp, db@, packaged@, k, t, c)
                    &&& forall|c: int| 0 <= c < fp.len() ==> !present@[c]
                },
            }
        }),
{
    let fpv = lines_exec(footprint);
    let ghost fp = texts(fpv@);
    let info_dir = chars_of("/usr/share/info/dir");
    let mut k: usize = 0;
    while k < db.len()
        invariant
            fp == texts(fpv@),
            fp == lines(footprint@),
            packaged.len() == fp.len(),
            info_dir@ == "/usr/share/info/dir"@,
            k <= db.len(),
            none_owned_before(fp, db@, packaged@, k as int, 0, 0),
        decreases db.len() - k,
    {
        let tl = lines_exec(&db[k].files);
        let ghost tls = texts(tl@);
        let mut t: usize = 0;
        while t < tl.len()
            invariant
                fp == texts(fpv@),
                fp == lines(footprint@),
                packaged.len() == fp.len(),
                info_dir@ == "/usr/share/info/dir"@,
                k < db.len(),
                tls == texts(tl@),
                tls == lines(db@[k as int].files@),
                t <= tl.len(),
                none_owned_before(fp, db@, packaged@, k as int, t as int, 0),
            decreases tl.len() - t,
        {
            let mut c: usize = 0;
            while c < fpv.len()
                invariant
                    fp == texts(fpv@),
                    fp == lines(footprint@),
                    packaged.len() == fp.len(),
                    info_dir@ == "/usr/share/info/dir"@,
                    k < db.len(),
                    tls == texts(tl@),
                    tls == lines(db@[k as int].files@),
                    t < tl.len(),
                    c <= fpv.len(),
                    none_owned_before(fp, db@, packaged@, k as int, t as int, c as int),
                decreases fpv.len() - c,
            {
                let line = &fpv[c];
                assert(fp[c as int] == line@);
                assert(tls[t as int] == tl@[t as int]@);
                if equal(line, &tl[t]) && line.len() > 0 && packaged[c] && !equal(
                    &rooted(line),
                    &info_dir,
                ) {
                    assert(owned_at(fp, db@, packaged@, k as int, t as int, c as int));
                    return Conflict::Owned { package: k, entry: t, line: c };
                }
                assert(!owned_at(fp, db@, packaged@, k as int, t as int, c as int));
                c = c + 1;
            }
            t = t + 1;
        }
        k = k + 1;
    }
    assert forall|k2: int, t2: int, c2: int| !owned_at(fp, db@, packaged@, k2, t2, c2) by {
        if owned_at(fp, db@, packaged@, k2, t2, c2) {
            assert(!before(k2, t2, c2, db.len() as int, 0, 0));
        }
    }
    let mut c: usize = 0;
    while c < fpv.len()
        invariant
            fp == texts(fpv@),
            fp == lines(footprint@),
            present.len() == fp.len(),
            forall|k2: int, t2: int, c2: int| !owned_at(fp, db@, packaged@, k2, t2, c2),
            c <= fpv.len(),
            forall|c2: int| 0 <= c2 < c ==> !present@[c2],
        decreases fpv.len() - c,
    {
        if present[c] {
            return Conflict::Present { line: c };
        }
        c = c + 1;
    }
    Conflict::Clear
}

} // verus!
