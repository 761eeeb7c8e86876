//! Building a package: what is done with each source, the footprint of the
//! package tree, the names of the files that go into the package, and the
//! archive formats that are unpacked.
use vstd::prelude::*;
use crate::meta::{meta_text, meta_text_exec, pkgfile_vars, vars_of, PkgfileVars};
use crate::text::{
    after_char, after_char_exec, after_first, after_first_exec, chars_of, concatenate, contains,
    contains_exec, has_suffix, has_suffix_exec, join_lines, join_lines_exec, last_segment,
    last_segment_exec, lines, slice, texts, trim, trim_exec, words, words_exec,
};

verus! {

// ---------------------------------------------------------------------------
// Sources
// ---------------------------------------------------------------------------

/// What is done with one entry of the Pkgfile's `source` list.
pub enum SourceStep {
    /// Download `url` into the work directory as `file`; unpack it there
    /// unless it is a gzipped patch.
    Fetch { url: Vec<char>, file: Vec<char>, unpack: bool },
    /// Copy the local file `file` into the work directory.
    Copy { file: Vec<char> },
}

/// The name a download is saved under: what follows the last `/` of its
/// URL.
pub open spec fn download_name(url: Seq<char>) -> Seq<char> {
    last_segment(url, '/')
}

/// `step` is what is done with the source entry `w`: an entry that holds
/// `http` is downloaded, and unpacked unless its file name holds
/// `.patch.gz`; any other entry is copied.
pub open spec fn step_for(step: SourceStep, w: Seq<char>) -> bool {
    if contains(w, "http"@) {
        step matches SourceStep::Fetch { url, file, unpack } && url@ == w && file@
            == download_name(w) && unpack == !contains(download_name(w), ".patch.gz"@)
    } else {
        step matches SourceStep::Copy { file } && file@ == w
    }
}

/// The name a download of `url` is saved under.
pub fn download_target(url: &Vec<char>) -> (r: Vec<char>)
    ensures
        r@ == download_name(url@),
{
    last_segment_exec(url, '/')
}

/// What is done with one source entry.
pub fn source_step(w: Vec<char>) -> (r: SourceStep)
    ensures
        step_for(r, w@),
{
    let http = chars_of("http");
    if contains_exec(&w, &http) {
        let file = download_target(&w);
        let patch = chars_of(".patch.gz");
        let unpack = !contains_exec(&file, &patch);
        SourceStep::Fetch { url: w, file, unpack }
    } else {
        SourceStep::Copy { file: w }
    }
}

/// What is done with each entry of a Pkgfile's `source` list, in order; the
/// entries are the words of the list.
pub fn source_steps(source: &Vec<char>) -> (r: Vec<SourceStep>)
    ensures
        r.len() == words(source@).len(),
        forall|k: int| 0 <= k < r.len() ==> step_for(#[trigger] r@[k], words(source@)[k]),
{
    let ws = words_exec(source);
    let ghost all = texts(ws@);
    let mut r: Vec<SourceStep> = Vec::new();
    let mut i: usize = 0;
    while i < ws.len()
        invariant
            all == texts(ws@),
            all == words(source@),
            i <= ws.len(),
            r.len() == i,
            forall|k: int| 0 <= k < i ==> step_for(#[trigger] r@[k], all[k]),
        decreases ws.len() - i,
    {
        let w = slice(&ws[i], 0, ws[i].len());
        assert(w@ =~= all[i as int]);
        let st = source_step(w);
        r.push(st);
        i = i + 1;
    }
    r
}

// ---------------------------------------------------------------------------
// Footprint
// ---------------------------------------------------------------------------

/// Where a path found under the package tree stands relative to it.
pub enum Relative {
    /// The tree itself.
    Base,
    /// An entry of the tree, named relative to it.
    Below(Vec<char>),
    /// Not under the tree: the tree's path does not occur in it, or nothing
    /// separates the rest with a `/`.
    Unrelated,
}

/// The footprint line of `path` below `base`: `None` when the path is not
/// under it, `Some(None)` for the base itself, and `Some(Some(l))` for an
/// entry `l`. The rest after the first occurrence of `base` is taken, and
/// the entry is what follows the first `/` in it.
pub open spec fn relative_spec(path: Seq<char>, base: Seq<char>) -> Option<Option<Seq<char>>> {
    match after_first(path, base) {
        None => None,
        Some(rest) => if rest.len() == 0 {
            Some(None)
        } else {
            match after_char(rest, '/') {
                None => None,
                Some(l) => Some(Some(l)),
            }
        },
    }
}

/// The footprint lines of the walked entries, in order; `None` when one of
/// them is not under `base`.
pub open spec fn footprint_lines(entries: Seq<Seq<char>>, base: Seq<char>) -> Option<
    Seq<Seq<char>>,
>
    decreases entries.len(),
{
    if entries.len() == 0 {
        Some(seq![])
    } else {
        match footprint_lines(entries.drop_last(), base) {
            None => None,
            Some(ls) => match relative_spec(entries.last(), base) {
                None => None,
                Some(None) => Some(ls),
                Some(Some(l)) => Some(ls.push(l)),
            },
        }
    }
}

/// Where `path` stands relative to the package tree `base`.
pub fn relative(path: &Vec<char>, base: &Vec<char>) -> (r: Relative)
    ensures
        r matches Relative::Unrelated ==> relative_spec(path@, base@) is None,
        r matches Relative::Base ==> relative_spec(path@, base@) == Some(None::<Seq<char>>),
        r matches Relative::Below(l) ==> relative_spec(path@, base@) == Some(Some(l@)),
{
    match after_first_exec(path, base) {
        None => Relative::Unrelated,
        Some(rest) => {
            if rest.len() == 0 {
                Relative::Base
            } else {
                match after_char_exec(&rest, '/') {
                    None => Relative::Unrelated,
                    Some(l) => Relative::Below(l),
                }
            }
        },
    }
}

/// The footprint of a package tree: one line per walked entry below `base`,
/// each followed by a newline; `None` when an entry is not under `base`.
pub fn footprint(entries: &Vec<Vec<char>>, base: &Vec<char>) -> (r: Option<Vec<char>>)
    ensures
        r is Some <==> footprint_lines(texts(entries@), base@) is Some,
        r matches Some(t) ==> t@ == join_lines(footprint_lines(texts(entries@), base@).unwrap()),
{
    let ghost all = texts(entries@);
    let mut ls: Vec<Vec<char>> = Vec::new();
    let mut i: usize = 0;
    assert(all.take(0) =~= Seq::<Seq<char>>::empty());
    while i < entries.len()
        invariant
            all == texts(entries@),
            i <= entries.len(),
            footprint_lines(all.take(i as int), base@) == Some(texts(ls@)),
        decreases entries.len() - i,
    {
        assert(all.take(i + 1).drop_last() =~= all.take(i as int));
        assert(all.take(i + 1).last() == entries@[i as int]@);
        match relative(&entries[i], base) {
            Relative::Unrelated => {
                assert(footprint_lines(all.take(i + 1), base@) is None);
                proof {
                    lemma_footprint_none_extends(all, base@, i + 1);
                }
                return None;
            },
            Relative::Base => {},
            Relative::Below(l) => {
                let ghost before = texts(ls@);
                ls.push(l);
                assert(texts(ls@) =~= before.push(l@));
            },
        }
        i = i + 1;
    }
    assert(all.take(entries.len() as int) =~= all);
    Some(join_lines_exec(&ls))
}

/// Once an entry is not under the tree, no longer list of entries has a
/// footprint.
proof fn lemma_footprint_none_extends(all: Seq<Seq<char>>, base: Seq<char>, i: int)
    requires
        0 <= i <= all.len(),
        footprint_lines(all.take(i), base) is None,
    ensures
        footprint_lines(all, base) is None,
    decreases all.len() - i,
{
    if i < all.len() {
        assert(all.take(i + 1).drop_last() =~= all.take(i));
        lemma_footprint_none_extends(all, base, i + 1);
    } else {
        assert(all.take(i) =~= all);
    }
}

/// The index line of a repository entry: the rest of `path` after the
/// trimmed repository root, from after the first `/` in it.
pub open spec fn index_entry_spec(path: Seq<char>, root: Seq<char>) -> Option<Seq<char>> {
    match after_first(path, trim(root)) {
        None => None,
        Some(rest) => after_char(rest, '/'),
    }
}

/// The index line of the repository entry `path` under `root`; `None` when
/// the trimmed root does not occur in it or no `/` follows.
pub fn index_entry(path: &Vec<char>, root: &Vec<char>) -> (r: Option<Vec<char>>)
    ensures
        r is Some <==> index_entry_spec(path@, root@) is Some,
        r matches Some(l) ==> index_entry_spec(path@, root@) == Some(l@),
{
    let base = trim_exec(root);
    match after_first_exec(path, &base) {
        None => None,
        Some(rest) => after_char_exec(&rest, '/'),
    }
}

// ---------------------------------------------------------------------------
// Archives
// ---------------------------------------------------------------------------

/// The compressed tar formats that are unpacked, told apart by the file
/// name's suffix.
#[derive(Debug, Clone, Copy, PartialEq, Eq)]
pub enum ArchiveFormat {
    Gzip,
    Xz,
    Bzip2,
    Zstd,
}

/// A gzipped tar, by name: it ends with `.tar.gz` or `.tgz`.
pub open spec fn gzip_name(name: Seq<char>) -> bool {
    has_suffix(name, ".tar.gz"@) || has_suffix(name, ".tgz"@)
}

/// The format of an archive, by its name; `None` for a name that is not
/// unpacked.
pub open spec fn archive_format_spec(name: Seq<char>) -> Option<ArchiveFormat> {
    if gzip_name(name) {
        Some(ArchiveFormat::Gzip)
    } else if has_suffix(name, ".tar.xz"@) {
        Some(ArchiveFormat::Xz)
    } else if has_suffix(name, ".tar.bz2"@) {
        Some(ArchiveFormat::Bzip2)
    } else if has_suffix(name, ".tar.zst"@) {
        Some(ArchiveFormat::Zstd)
    } else {
        None
    }
}

/// Whether `name` is the name of a gzipped tar.
pub fn is_gzip_archive(name: &Vec<char>) -> (r: bool)
    ensures
        r == gzip_name(name@),
{
    has_suffix_exec(name, &chars_of(".tar.gz")) || has_suffix_exec(name, &chars_of(".tgz"))
}

/// The format of the archive `name`; `None` when it is not unpacked.
pub fn archive_format(name: &Vec<char>) -> (r: Option<ArchiveFormat>)
    ensures
        r == archive_format_spec(name@),
{
    if is_gzip_archive(name) {
        Some(ArchiveFormat::Gzip)
    } else if has_suffix_exec(name, &chars_of(".tar.xz")) {
        Some(ArchiveFormat::Xz)
    } else if has_suffix_exec(name, &chars_of(".tar.bz2")) {
        Some(ArchiveFormat::Bzip2)
    } else if has_suffix_exec(name, &chars_of(".tar.zst")) {
        Some(ArchiveFormat::Zstd)
    } else {
        None
    }
}

// ---------------------------------------------------------------------------
// The plan of a build
// ---------------------------------------------------------------------------

/// Everything a build decides before and around running the Pkgfile.
pub struct PackagePlan {
    /// The Pkgfile's values.
    pub vars: PkgfileVars,
    /// The text of the META file.
    pub meta: Vec<char>,
    /// What is done with each source.
    pub steps: Vec<SourceStep>,
    /// The directory sources are fetched into and built in.
    pub work_dir: Vec<char>,
    /// The directory the package tree is installed into.
    pub pkg_dir: Vec<char>,
    /// The footprint file: `<name>.footprint`.
    pub footprint_file: Vec<char>,
    /// The package archive: `<name>.<version>.raw.tar.gz`.
    pub archive_file: Vec<char>,
    /// The pre-install script: `<name>.pre-install`.
    pub pre_install: Vec<char>,
    /// The post-install script: `<name>.post-install`.
    pub post_install: Vec<char>,
}

/// `<name>.footprint`.
pub open spec fn footprint_name(name: Seq<char>) -> Seq<char> {
    name + ".footprint"@
}

/// `<name>.<version>.raw.tar.gz`.
pub open spec fn archive_name(name: Seq<char>, version: Seq<char>) -> Seq<char> {
    name + seq!['.'] + version + ".raw.tar.gz"@
}

/// `<name>.pre-install`.
pub open spec fn pre_install_name(name: Seq<char>) -> Seq<char> {
    name + ".pre-install"@
}

/// `<name>.post-install`.
pub open spec fn post_install_name(name: Seq<char>) -> Seq<char> {
    name + ".post-install"@
}

/// `p` is the plan for a build whose Pkgfile printed `out`, in the directory
/// `collection_path` whose own name is `collection`.
pub open spec fn plan_for(
    p: PackagePlan,
    out: Seq<char>,
    collection: Seq<char>,
    collection_path: Seq<char>,
) -> bool {
    let v = p.vars;
    &&& vars_of(v, out)
    &&& p.meta@ == meta_text(
        v.name@,
        v.version@,
        v.release@,
        collection,
        v.description@,
        v.packager@,
    )
    &&& p.steps.len() == words(v.source@).len()
    &&& forall|k: int| 0 <= k < p.steps.len() ==> step_for(#[trigger] p.steps@[k], words(v.source@)[k])
    &&& p.work_dir@ == collection_path + "/work"@
    &&& p.pkg_dir@ == collection_path + "/pkg"@
    &&& p.footprint_file@ == footprint_name(v.name@)
    &&& p.archive_file@ == archive_name(v.name@, v.version@)
    &&& p.pre_install@ == pre_install_name(v.name@)
    &&& p.post_install@ == post_install_name(v.name@)
}

/// The plan of a build whose Pkgfile printed `out`, in the directory
/// `collection_path` whose own name is `collection`; `None` when the
/// Pkgfile printed fewer than six lines.
pub fn package(out: &Vec<char>, collection: &Vec<char>, collection_path: &Vec<char>) -> (r: Option<
    PackagePlan,
>)
    ensures
        r is Some <==> lines(out@).len() >= 6,
        r matches Some(p) ==> plan_for(p, out@, collection@, collection_path@),
{
    let vars = match pkgfile_vars(out) {
        None => {
            return None;
        },
        Some(v) => v,
    };
    let meta = meta_text_exec(&vars, collection);
    let steps = source_steps(&vars.source);
    let work_dir = concatenate(collection_path, &chars_of("/work"));
    let pkg_dir = concatenate(collection_path, &chars_of("/pkg"));
    let footprint_file = concatenate(&vars.name, &chars_of(".footprint"));
    let dotted = concatenate(&vars.name, &vec!['.']);
    let archive_file = concatenate(&concatenate(&dotted, &vars.version), &chars_of(".raw.tar.gz"));
    assert(archive_file@ =~= archive_name(vars.name@, vars.version@));
    let pre_install = concatenate(&vars.name, &chars_of(".pre-install"));
    let post_install = concatenate(&vars.name, &chars_of(".post-install"));
    Some(
        PackagePlan {
            vars,
            meta,
            steps,
            work_dir,
            pkg_dir,
            footprint_file,
            archive_file,
            pre_install,
            post_install,
        },
    )
}

} // verus!
