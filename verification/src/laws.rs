//! What holds across the operations: files written by one step and read by
//! another, and the names a built package is installed under.
use vstd::prelude::*;
use crate::db::{
    db_path, install_plan_for, library_lines, name_per_match, none_owned_before, owned_at, owners, query_target,
    removal_spec, InstallPlan, Installed,
};
use crate::config::{config_of, first_with_prefix, listing_of, Config, Listing};
use crate::meta::{field_in, lemma_meta_lines, meta_field_spec, meta_text};
use crate::package::{
    archive_format_spec, archive_name, download_name, footprint_name, gzip_name, index_entry_spec,
    relative_spec, step_for, ArchiveFormat, SourceStep,
};
use crate::text::{
    after_first, before_char, contains, find_char, first_occurrence, has_prefix, is_char,
    join_lines, last_segment, lemma_find_first, lemma_find_first_is, lemma_lines_join_lines, lines,
    newline_free, occurs_at, plain_line, trim,
};

verus! {

/// A footprint written one entry per line reads back as the same entries,
/// as long as no entry holds a newline or ends with a carriage return.
pub proof fn law_footprint_read_back(entries: Seq<Seq<char>>)
    requires
        forall|k: int| 0 <= k < entries.len() ==> plain_line(#[trigger] entries[k]),
    ensures
        lines(join_lines(entries)) == entries,
{
    lemma_lines_join_lines(entries);
}

/// The fields of a META file read back as they were written: name,
/// version, release, collection, description and packager, as long as none
/// holds a newline and none but the packager ends with a carriage return.
pub proof fn law_meta_read_back(
    name: Seq<char>,
    version: Seq<char>,
    release: Seq<char>,
    collection: Seq<char>,
    description: Seq<char>,
    packager: Seq<char>,
)
    requires
        plain_line(name),
        plain_line(version),
        plain_line(release),
        plain_line(collection),
        plain_line(description),
        newline_free(packager),
    ensures
        ({
            let m = meta_text(name, version, release, collection, description, packager);
            &&& meta_field_spec(m, 'N') == Some(name)
            &&& meta_field_spec(m, 'V') == Some(version)
            &&& meta_field_spec(m, 'r') == Some(release)
            &&& meta_field_spec(m, 'c') == Some(collection)
            &&& meta_field_spec(m, 'D') == Some(description)
            &&& meta_field_spec(m, 'P') == Some(packager)
        }),
{
    lemma_meta_lines(name, version, release, collection, description, packager);
    let ls = seq![
        seq!['N'] + name,
        seq!['V'] + version,
        seq!['r'] + release,
        seq!['c'] + collection,
        seq!['D'] + description,
        seq!['P'] + packager,
    ];
    assert((seq!['N'] + name).skip(1) =~= name);
    assert((seq!['V'] + version).skip(1) =~= version);
    assert((seq!['r'] + release).skip(1) =~= release);
    assert((seq!['c'] + collection).skip(1) =~= collection);
    assert((seq!['D'] + description).skip(1) =~= description);
    assert((seq!['P'] + packager).skip(1) =~= packager);
    assert(ls.drop_first() =~= seq![
        seq!['V'] + version,
        seq!['r'] + release,
        seq!['c'] + collection,
        seq!['D'] + description,
        seq!['P'] + packager,
    ]);
    assert(ls.drop_first().drop_first() =~= seq![
        seq!['r'] + release,
        seq!['c'] + collection,
        seq!['D'] + description,
        seq!['P'] + packager,
    ]);
    assert(ls.drop_first().drop_first().drop_first() =~= seq![
        seq!['c'] + collection,
        seq!['D'] + description,
        seq!['P'] + packager,
    ]);
    assert(ls.drop_first().drop_first().drop_first().drop_first() =~= seq![
        seq!['D'] + description,
        seq!['P'] + packager,
    ]);
    assert(ls.drop_first().drop_first().drop_first().drop_first().drop_first() =~= seq![
        seq!['P'] + packager,
    ]);
    reveal_with_fuel(field_in, 7);
}

/// Only gzipped tars are installed, and they are exactly the archives that
/// are unpacked as gzip.
pub proof fn law_installable_is_gzip(name: Seq<char>)
    ensures
        gzip_name(name) <==> archive_format_spec(name) == Some(ArchiveFormat::Gzip),
{
}

/// A package built from a Pkgfile whose name holds no `.` is installed
/// under that name: its archive is taken as a gzipped tar, and the
/// footprint, scripts and database files that the installation uses are
/// the ones the build wrote for that name.
pub proof fn law_built_archive_installs_by_name(
    name: Seq<char>,
    version: Seq<char>,
    p: InstallPlan,
)
    requires
        forall|k: int| 0 <= k < name.len() ==> name[k] != '.',
        install_plan_for(p, archive_name(name, version)),
    ensures
        p.package@ == name,
        p.gzip,
        p.footprint@ == seq!['/'] + footprint_name(name),
        p.db_files@ == db_path(name, "files"@),
        p.db_meta@ == db_path(name, "META"@),
{
    let a = archive_name(name, version);
    assert(a[name.len() as int] == '.');
    assert forall|k: int| 0 <= k < name.len() implies !is_char('.')(#[trigger] a[k]) by {
        assert(a[k] == name[k]);
    }
    lemma_find_first_is(a, is_char('.'), name.len() as int);
    assert(a.take(name.len() as int) =~= name);
    reveal_strlit(".raw.tar.gz");
    reveal_strlit(".tar.gz");
    assert(a.skip(a.len() - 7) =~= ".tar.gz"@);
}

/// What is left after the first `/` of `/` followed by a line is that
/// line: the absolute path of a footprint line is looked up as the line.
pub proof fn law_query_target_of_rooted(l: Seq<char>)
    ensures
        query_target(seq!['/'] + l) == Some(l),
{
    let s = seq!['/'] + l;
    lemma_find_first_is(s, is_char('/'), 0);
    assert(s.skip(1) =~= l);
}

/// The name is listed once for each matching line.
proof fn lemma_name_per_match_has(name: Seq<char>, ls: Seq<Seq<char>>, t: int)
    requires
        0 <= t < ls.len(),
    ensures
        name_per_match(name, ls, ls[t]).contains(name),
    decreases ls.len(),
{
    if t == ls.len() - 1 {
        assert(name_per_match(name, ls, ls[t]).last() == name);
    } else {
        assert(ls.drop_last()[t] == ls[t]);
        lemma_name_per_match_has(name, ls.drop_last(), t);
        let w = name_per_match(name, ls.drop_last(), ls[t]);
        let i = choose|i: int| 0 <= i < w.len() && w[i] == name;
        if ls.last() == ls[t] {
            assert(w.push(name)[i] == name);
        }
    }
}

/// Every installed package whose footprint holds a line is among the
/// owners found for that line.
pub proof fn law_owner_found(db: Seq<Installed>, k: int, t: int)
    requires
        0 <= k < db.len(),
        0 <= t < lines(db[k].files@).len(),
    ensures
        owners(db, lines(db[k].files@)[t]).contains(db[k].name@),
    decreases db.len(),
{
    let target = lines(db[k].files@)[t];
    if k == db.len() - 1 {
        lemma_name_per_match_has(db[k].name@, lines(db[k].files@), t);
        let w = name_per_match(db[k].name@, lines(db[k].files@), target);
        let i = choose|i: int| 0 <= i < w.len() && w[i] == db[k].name@;
        let o = owners(db.drop_last(), target);
        assert((o + w)[o.len() + i] == db[k].name@);
    } else {
        assert(db.drop_last()[k] == db[k]);
        law_owner_found(db.drop_last(), k, t);
        let o = owners(db.drop_last(), target);
        let i = choose|i: int| 0 <= i < o.len() && o[i] == db[k].name@;
        let w = name_per_match(db.last().name@, lines(db.last().files@), target);
        assert((o + w)[i] == db[k].name@);
    }
}

/// A removal deletes `/` followed by each footprint line that is not
/// exactly `bin`, `lib`, `lib64` or `sbin`, and nothing else: every target
/// comes from such a line, and every such line gives its target (the line
/// `bin/bash` gives `/bin/bash`).
pub proof fn law_removal_targets(ls: Seq<Seq<char>>)
    ensures
        forall|i: int|
            0 <= i < removal_spec(ls).len() ==> exists|j: int|
                0 <= j < ls.len() && !(ls[j] == "bin"@ || ls[j] == "lib"@ || ls[j] == "lib64"@
                    || ls[j] == "sbin"@) && #[trigger] removal_spec(ls)[i] == seq!['/'] + ls[j],
        forall|j: int|
            0 <= j < ls.len() && !(#[trigger] ls[j] == "bin"@ || ls[j] == "lib"@ || ls[j]
                == "lib64"@ || ls[j] == "sbin"@) ==> removal_spec(ls).contains(
                seq!['/'] + ls[j],
            ),
    decreases ls.len(),
{
    if ls.len() > 0 {
        let rest = ls.drop_last();
        law_removal_targets(rest);
        let r = removal_spec(ls);
        let q = removal_spec(rest);
        assert forall|i: int| 0 <= i < r.len() implies exists|j: int|
            0 <= j < ls.len() && !(ls[j] == "bin"@ || ls[j] == "lib"@ || ls[j] == "lib64"@
                || ls[j] == "sbin"@) && #[trigger] r[i] == seq!['/'] + ls[j] by {
            if i < q.len() {
                assert(r[i] == q[i]);
                let j = choose|j: int|
                    0 <= j < rest.len() && !(rest[j] == "bin"@ || rest[j] == "lib"@ || rest[j]
                        == "lib64"@ || rest[j] == "sbin"@) && #[trigger] q[i] == seq!['/']
                        + rest[j];
                assert(ls[j] == rest[j]);
            } else {
                assert(r[i] == seq!['/'] + ls[ls.len() - 1]);
            }
        }
        assert forall|j: int|
            0 <= j < ls.len() && !(#[trigger] ls[j] == "bin"@ || ls[j] == "lib"@ || ls[j]
                == "lib64"@ || ls[j] == "sbin"@) implies r.contains(seq!['/'] + ls[j]) by {
            if j < ls.len() - 1 {
                assert(rest[j] == ls[j]);
                let i = choose|i: int| 0 <= i < q.len() && q[i] == seq!['/'] + rest[j];
                assert(r[i] == q[i]);
            } else {
                assert(r[q.len() as int] == seq!['/'] + ls[j]);
            }
        }
    }
}

/// A text that starts with `base` has its first occurrence of `base` at
/// the start: what follows it is the rest of the text.
proof fn lemma_after_leading(base: Seq<char>, rest: Seq<char>)
    ensures
        after_first(base + rest, base) == Some(rest),
{
    let path = base + rest;
    assert(path.subrange(0, base.len() as int) =~= base);
    assert(occurs_at(path, base, 0));
    assert(first_occurrence(path, base, 0));
    let i = choose|i: int| first_occurrence(path, base, i);
    assert(first_occurrence(path, base, i));
    if i > 0 {
        assert(!occurs_at(path, base, 0));
    }
    assert(path.skip(base.len() as int) =~= rest);
}

/// The walked package tree itself gives no footprint line, and each path
/// below it, `base/rel`, gives the line `rel`.
pub proof fn law_footprint_entry_of_walked_path(base: Seq<char>, rel: Seq<char>)
    ensures
        relative_spec(base, base) == Some(None::<Seq<char>>),
        relative_spec(base + seq!['/'] + rel, base) == Some(Some(rel)),
{
    lemma_after_leading(base, Seq::<char>::empty());
    assert(base + Seq::<char>::empty() =~= base);
    lemma_after_leading(base, seq!['/'] + rel);
    assert(base + (seq!['/'] + rel) =~= base + seq!['/'] + rel);
    law_query_target_of_rooted(rel);
}

/// A port two levels below the ports root, `root/group/port`, is indexed
/// as `group/port`, whatever white space surrounds the configured root.
pub proof fn law_index_entry_of_port(root: Seq<char>, rel: Seq<char>)
    ensures
        index_entry_spec(trim(root) + seq!['/'] + rel, root) == Some(rel),
{
    lemma_after_leading(trim(root), seq!['/'] + rel);
    assert(trim(root) + (seq!['/'] + rel) =~= trim(root) + seq!['/'] + rel);
    law_query_target_of_rooted(rel);
}

/// Every line read from a text is free of newlines.
pub proof fn law_lines_are_newline_free(s: Seq<char>)
    ensures
        forall|k: int| 0 <= k < lines(s).len() ==> newline_free(#[trigger] lines(s)[k]),
    decreases s.len(),
{
    if s.len() > 0 {
        let i = find_char(s, '\n');
        lemma_find_first(s, is_char('\n'));
        if i < s.len() {
            law_lines_are_newline_free(s.skip(i + 1 as int));
            let first = crate::text::strip_cr(s.take(i as int));
            assert forall|m: int| 0 <= m < first.len() implies first[m] != '\n' by {
                assert(first[m] == s[m]);
            }
            let rest = lines(s.skip(i + 1 as int));
            assert forall|k: int| 0 <= k < lines(s).len() implies newline_free(
                #[trigger] lines(s)[k],
            ) by {
                if k > 0 {
                    assert(lines(s)[k] == rest[k - 1]);
                }
            }
        } else {
            assert forall|m: int| 0 <= m < s.len() implies s[m] != '\n' by {}
        }
    }
}

/// What follows the last `c` holds no `c`, ends the text, and is either the
/// whole text or preceded by a `c`.
proof fn lemma_last_segment(s: Seq<char>, c: char)
    ensures
        ({
            let f = last_segment(s, c);
            &&& forall|k: int| 0 <= k < f.len() ==> f[k] != c
            &&& f.len() <= s.len()
            &&& s.skip(s.len() - f.len()) == f
            &&& f.len() < s.len() ==> s[s.len() - f.len() - 1] == c
        }),
    decreases s.len(),
{
    if s.len() > 0 {
        lemma_last_segment(s.drop_last(), c);
        let f = last_segment(s, c);
        if s.last() == c {
            assert(s.skip(s.len() as int) =~= f);
        } else {
            let g = last_segment(s.drop_last(), c);
            assert(f == g.push(s.last()));
            assert(s.skip(s.len() - f.len()) =~= s.drop_last().skip(
                s.drop_last().len() - g.len(),
            ).push(s.last()));
            assert forall|k: int| 0 <= k < f.len() implies f[k] != c by {
                if k < g.len() {
                    assert(f[k] == g[k]);
                }
            }
            if f.len() < s.len() {
                assert(s[s.len() - f.len() - 1] == s.drop_last()[s.drop_last().len() - g.len() - 1]);
            }
        }
    } else {
        assert(s.skip(0) =~= last_segment(s, c));
    }
}

/// A source entry is downloaded exactly when the text `http` occurs in it,
/// and copied otherwise. A download is saved under the part of the URL
/// after its last `/`, and is left packed exactly when that file name holds
/// `.patch.gz`: a `patch-2.7.6.tar.xz` tarball is unpacked.
pub proof fn law_source_step(st: SourceStep, w: Seq<char>)
    requires
        step_for(st, w),
    ensures
        (st is Fetch) <==> (exists|i: int|
            0 <= i && i + 4 <= w.len() && #[trigger] w.subrange(i, i + 4) == "http"@),
        st matches SourceStep::Copy { file } ==> file@ == w,
        st matches SourceStep::Fetch { url, file, unpack } ==> {
            &&& url@ == w
            &&& forall|k: int| 0 <= k < file@.len() ==> file@[k] != '/'
            &&& file@.len() <= w.len()
            &&& w.skip(w.len() - file@.len()) == file@
            &&& file@.len() < w.len() ==> w[w.len() - file@.len() - 1] == '/'
            &&& unpack <==> !(exists|i: int|
                0 <= i && i + 9 <= file@.len() && #[trigger] file@.subrange(i, i + 9)
                    == ".patch.gz"@)
        },
{
    reveal_strlit("http");
    reveal_strlit(".patch.gz");
    lemma_last_segment(w, '/');
    assert(contains(w, "http"@) <==> (exists|i: int|
        0 <= i && i + 4 <= w.len() && #[trigger] w.subrange(i, i + 4) == "http"@)) by {
        if contains(w, "http"@) {
            let i = choose|i: int| occurs_at(w, "http"@, i);
            assert(w.subrange(i, i + 4) == "http"@);
        }
        if exists|i: int| 0 <= i && i + 4 <= w.len() && #[trigger] w.subrange(i, i + 4) == "http"@ {
            let i = choose|i: int|
                0 <= i && i + 4 <= w.len() && #[trigger] w.subrange(i, i + 4) == "http"@;
            assert(occurs_at(w, "http"@, i));
        }
    }
    let f = download_name(w);
    assert(contains(f, ".patch.gz"@) <==> (exists|i: int|
        0 <= i && i + 9 <= f.len() && #[trigger] f.subrange(i, i + 9) == ".patch.gz"@)) by {
        if contains(f, ".patch.gz"@) {
            let i = choose|i: int| occurs_at(f, ".patch.gz"@, i);
            assert(f.subrange(i, i + 9) == ".patch.gz"@);
        }
        if exists|i: int|
            0 <= i && i + 9 <= f.len() && #[trigger] f.subrange(i, i + 9) == ".patch.gz"@ {
            let i = choose|i: int|
                0 <= i && i + 9 <= f.len() && #[trigger] f.subrange(i, i + 9) == ".patch.gz"@;
            assert(occurs_at(f, ".patch.gz"@, i));
        }
    }
}

/// Each name the owner lookup gives is listed once per footprint line, of
/// a package with that name, that equals the target exactly.
proof fn lemma_name_per_match_sound(name: Seq<char>, ls: Seq<Seq<char>>, target: Seq<char>)
    ensures
        forall|i: int|
            0 <= i < name_per_match(name, ls, target).len() ==> #[trigger] name_per_match(
                name,
                ls,
                target,
            )[i] == name,
        name_per_match(name, ls, target).len() > 0 ==> exists|t: int|
            0 <= t < ls.len() && ls[t] == target,
    decreases ls.len(),
{
    if ls.len() > 0 {
        lemma_name_per_match_sound(name, ls.drop_last(), target);
        let w = name_per_match(name, ls.drop_last(), target);
        if w.len() > 0 {
            let t = choose|t: int| 0 <= t < ls.drop_last().len() && ls.drop_last()[t] == target;
            assert(ls[t] == target);
        }
        if ls.last() == target {
            assert(ls[ls.len() - 1] == target);
            assert forall|i: int| 0 <= i < w.push(name).len() implies #[trigger] w.push(name)[i]
                == name by {
                if i < w.len() {
                    assert(w.push(name)[i] == w[i]);
                }
            }
        }
    }
}

/// Every name the owner lookup lists belongs to an installed package one
/// of whose footprint lines is exactly the target; so a path that no
/// footprint line names has no owner.
pub proof fn law_owners_hold_the_line(db: Seq<Installed>, target: Seq<char>)
    ensures
        forall|i: int|
            0 <= i < owners(db, target).len() ==> exists|k: int, t: int|
                0 <= k < db.len() && 0 <= t < lines(db[k].files@).len() && lines(
                    db[k].files@,
                )[t] == target && #[trigger] owners(db, target)[i] == db[k].name@,
        (forall|k: int, t: int|
            0 <= k < db.len() && 0 <= t < lines(db[k].files@).len() ==> lines(
                db[k].files@,
            )[t] != target) ==> owners(db, target).len() == 0,
    decreases db.len(),
{
    if db.len() > 0 {
        let rest = db.drop_last();
        law_owners_hold_the_line(rest, target);
        let o = owners(rest, target);
        let last = db.last();
        let w = name_per_match(last.name@, lines(last.files@), target);
        lemma_name_per_match_sound(last.name@, lines(last.files@), target);
        let all = owners(db, target);
        assert(all == o + w);
        assert forall|i: int| 0 <= i < all.len() implies exists|k: int, t: int|
            0 <= k < db.len() && 0 <= t < lines(db[k].files@).len() && lines(db[k].files@)[t]
                == target && #[trigger] all[i] == db[k].name@ by {
            if i < o.len() {
                assert(all[i] == o[i]);
                let (k, t) = choose|k: int, t: int|
                    0 <= k < rest.len() && 0 <= t < lines(rest[k].files@).len() && lines(
                        rest[k].files@,
                    )[t] == target && #[trigger] o[i] == rest[k].name@;
                assert(db[k] == rest[k]);
            } else {
                assert(all[i] == w[i - o.len()]);
                let t = choose|t: int|
                    0 <= t < lines(last.files@).len() && lines(last.files@)[t] == target;
                assert(db[db.len() - 1] == last);
            }
        }
        if forall|k: int, t: int|
            0 <= k < db.len() && 0 <= t < lines(db[k].files@).len() ==> lines(
                db[k].files@,
            )[t] != target {
            assert forall|k: int, t: int|
                0 <= k < rest.len() && 0 <= t < lines(rest[k].files@).len() implies lines(
                rest[k].files@,
            )[t] != target by {
                assert(db[k] == rest[k]);
            }
            if w.len() > 0 {
                let t = choose|t: int|
                    0 <= t < lines(last.files@).len() && lines(last.files@)[t] == target;
                assert(db[db.len() - 1] == last);
            }
        }
    }
}

/// The library listing keeps exactly the footprint lines that hold `.so`
/// and, unless all are asked for, do not hold `security`: each listed line
/// is such a line of the footprint, and each such line is listed.
pub proof fn law_library_lines(ls: Seq<Seq<char>>, every: bool)
    ensures
        forall|i: int|
            0 <= i < library_lines(ls, every).len() ==> {
                let l = #[trigger] library_lines(ls, every)[i];
                &&& ls.contains(l)
                &&& contains(l, ".so"@)
                &&& every || !contains(l, "security"@)
            },
        forall|j: int|
            0 <= j < ls.len() && contains(#[trigger] ls[j], ".so"@) && (every || !contains(
                ls[j],
                "security"@,
            )) ==> library_lines(ls, every).contains(ls[j]),
    decreases ls.len(),
{
    if ls.len() > 0 {
        let rest = ls.drop_last();
        law_library_lines(rest, every);
        let r = library_lines(ls, every);
        let q = library_lines(rest, every);
        assert forall|i: int| 0 <= i < r.len() implies {
            let l = #[trigger] r[i];
            &&& ls.contains(l)
            &&& contains(l, ".so"@)
            &&& every || !contains(l, "security"@)
        } by {
            if i < q.len() {
                assert(r[i] == q[i]);
                let j = choose|j: int| 0 <= j < rest.len() && rest[j] == q[i];
                assert(ls[j] == rest[j]);
            } else {
                assert(r[i] == ls[ls.len() - 1]);
            }
        }
        assert forall|j: int|
            0 <= j < ls.len() && contains(#[trigger] ls[j], ".so"@) && (every || !contains(
                ls[j],
                "security"@,
            )) implies r.contains(ls[j]) by {
            if j < ls.len() - 1 {
                assert(rest[j] == ls[j]);
                let i = choose|i: int| 0 <= i < q.len() && q[i] == rest[j];
                assert(r[i] == q[i]);
            } else {
                assert(r[q.len() as int] == ls[j]);
            }
        }
    }
}

/// The repository line found for a prefix is the first line that begins
/// with it: it is one of the lines, its first characters are the prefix,
/// and no earlier line begins with the prefix; when none is found, no line
/// begins with it.
pub proof fn law_first_with_prefix(ls: Seq<Seq<char>>, p: Seq<char>)
    ensures
        first_with_prefix(ls, p) matches Some(l) ==> exists|i: int|
            0 <= i < ls.len() && ls[i] == l && p.len() <= l.len() && l.take(p.len() as int)
                == p && forall|j: int|
                0 <= j < i ==> !(p.len() <= ls[j].len() && #[trigger] ls[j].take(p.len() as int)
                    == p),
        first_with_prefix(ls, p) is None ==> forall|j: int|
            0 <= j < ls.len() ==> !(p.len() <= ls[j].len() && #[trigger] ls[j].take(
                p.len() as int,
            ) == p),
    decreases ls.len(),
{
    if ls.len() > 0 {
        let rest = ls.drop_first();
        law_first_with_prefix(rest, p);
        if !has_prefix(ls[0], p) {
            match first_with_prefix(rest, p) {
                Some(l) => {
                    let i = choose|i: int|
                        0 <= i < rest.len() && rest[i] == l && p.len() <= l.len() && l.take(
                            p.len() as int,
                        ) == p && forall|j: int|
                            0 <= j < i ==> !(p.len() <= rest[j].len() && #[trigger] rest[j].take(
                                p.len() as int,
                            ) == p);
                    assert(ls[i + 1] == l);
                    assert forall|j: int| 0 <= j < i + 1 implies !(p.len() <= ls[j].len()
                        && #[trigger] ls[j].take(p.len() as int) == p) by {
                        if j > 0 {
                            assert(ls[j] == rest[j - 1]);
                        }
                    }
                },
                None => {
                    assert forall|j: int| 0 <= j < ls.len() implies !(p.len() <= ls[j].len()
                        && #[trigger] ls[j].take(p.len() as int) == p) by {
                        if j > 0 {
                            assert(ls[j] == rest[j - 1]);
                        }
                    }
                },
            }
        }
    }
}

/// The package found in the repository metadata is the first metadata line
/// that begins with the package name followed by `-`; a name that occurs
/// nowhere is missing.
pub proof fn law_repository_entry(r: Listing, metadata: Seq<char>, pkg: Seq<char>)
    requires
        listing_of(r, metadata, pkg),
    ensures
        r is Missing <==> !contains(metadata, pkg),
        r matches Listing::Entry(e) ==> {
            let ls = lines(metadata);
            let p = pkg + seq!['-'];
            exists|i: int|
                0 <= i < ls.len() && ls[i] == e@ && p.len() <= e@.len() && e@.take(
                    p.len() as int,
                ) == p && forall|j: int|
                    0 <= j < i ==> !(p.len() <= ls[j].len() && #[trigger] ls[j].take(
                        p.len() as int,
                    ) == p)
        },
        r is NoEntry ==> {
            let ls = lines(metadata);
            let p = pkg + seq!['-'];
            forall|j: int|
                0 <= j < ls.len() ==> !(p.len() <= ls[j].len() && #[trigger] ls[j].take(
                    p.len() as int,
                ) == p)
        },
{
    law_first_with_prefix(lines(metadata), pkg + seq!['-']);
}

/// The package name of an archive is what precedes its first `.`: it holds
/// no `.`, and the archive's name is it followed by a `.`; an archive name
/// without `.` has no package name.
pub proof fn law_package_name(raw: Seq<char>)
    ensures
        before_char(raw, '.') matches Some(p) ==> {
            &&& forall|k: int| 0 <= k < p.len() ==> p[k] != '.'
            &&& p.len() < raw.len()
            &&& raw[p.len() as int] == '.'
            &&& raw.take(p.len() as int) == p
        },
        before_char(raw, '.') is None ==> forall|k: int| 0 <= k < raw.len() ==> raw[k] != '.',
{
    lemma_find_first(raw, is_char('.'));
    let i = find_char(raw, '.');
    assert forall|k: int| 0 <= k < i implies raw[k] != '.' by {
        assert(!is_char('.')(raw[k]));
    }
    if i < raw.len() {
        assert(is_char('.')(raw[i as int]));
        let p = raw.take(i as int);
        assert forall|k: int| 0 <= k < p.len() implies p[k] != '.' by {
            assert(p[k] == raw[k]);
        }
    }
}

/// The format of an archive is told by the end of its name alone:
/// `.tar.gz` or `.tgz` is gzip, then `.tar.xz`, `.tar.bz2` and `.tar.zst`;
/// any other name is not unpacked.
pub proof fn law_archive_format(n: Seq<char>)
    ensures
        ({
            let gz = (7 <= n.len() && n.skip(n.len() - 7) == ".tar.gz"@) || (4 <= n.len()
                && n.skip(n.len() - 4) == ".tgz"@);
            let xz = 7 <= n.len() && n.skip(n.len() - 7) == ".tar.xz"@;
            let bz = 8 <= n.len() && n.skip(n.len() - 8) == ".tar.bz2"@;
            let zst = 8 <= n.len() && n.skip(n.len() - 8) == ".tar.zst"@;
            &&& (archive_format_spec(n) == Some(ArchiveFormat::Gzip)) <==> gz
            &&& (archive_format_spec(n) == Some(ArchiveFormat::Xz)) <==> (!gz && xz)
            &&& (archive_format_spec(n) == Some(ArchiveFormat::Bzip2)) <==> (!gz && !xz && bz)
            &&& (archive_format_spec(n) == Some(ArchiveFormat::Zstd)) <==> (!gz && !xz && !bz
                && zst)
            &&& (archive_format_spec(n) is None) <==> (!gz && !xz && !bz && !zst)
        }),
{
    reveal_strlit(".tar.gz");
    reveal_strlit(".tgz");
    reveal_strlit(".tar.xz");
    reveal_strlit(".tar.bz2");
    reveal_strlit(".tar.zst");
}

/// The field lookup in `ls` finds the first line that starts with the tag.
proof fn lemma_field_in(ls: Seq<Seq<char>>, tag: char)
    ensures
        field_in(ls, tag) matches Some(v) ==> exists|i: int|
            0 <= i < ls.len() && ls[i] == seq![tag] + v && forall|j: int|
                0 <= j < i ==> !(#[trigger] ls[j].len() > 0 && ls[j][0] == tag),
        field_in(ls, tag) is None ==> forall|j: int|
            0 <= j < ls.len() ==> !(#[trigger] ls[j].len() > 0 && ls[j][0] == tag),
    decreases ls.len(),
{
    if ls.len() > 0 {
        let rest = ls.drop_first();
        lemma_field_in(rest, tag);
        if ls[0].len() > 0 && ls[0][0] == tag {
            assert(ls[0] =~= seq![tag] + ls[0].skip(1));
        } else {
            match field_in(rest, tag) {
                Some(v) => {
                    let i = choose|i: int|
                        0 <= i < rest.len() && rest[i] == seq![tag] + v && forall|j: int|
                            0 <= j < i ==> !(#[trigger] rest[j].len() > 0 && rest[j][0] == tag);
                    assert(ls[i + 1] == rest[i]);
                    assert forall|j: int| 0 <= j < i + 1 implies !(#[trigger] ls[j].len() > 0
                        && ls[j][0] == tag) by {
                        if j > 0 {
                            assert(ls[j] == rest[j - 1]);
                        }
                    }
                },
                None => {
                    assert forall|j: int| 0 <= j < ls.len() implies !(#[trigger] ls[j].len() > 0
                        && ls[j][0] == tag) by {
                        if j > 0 {
                            assert(ls[j] == rest[j - 1]);
                        }
                    }
                },
            }
        }
    }
}

/// A META field is read from the first line that starts with its tag: that
/// line is the tag followed by the value, and no earlier line starts with
/// the tag; a field whose tag starts no line is absent.
pub proof fn law_meta_field(meta: Seq<char>, tag: char)
    ensures
        meta_field_spec(meta, tag) matches Some(v) ==> exists|i: int|
            0 <= i < lines(meta).len() && lines(meta)[i] == seq![tag] + v && forall|j: int|
                0 <= j < i ==> !(#[trigger] lines(meta)[j].len() > 0 && lines(meta)[j][0] == tag),
        meta_field_spec(meta, tag) is None ==> forall|j: int|
            0 <= j < lines(meta).len() ==> !(#[trigger] lines(meta)[j].len() > 0
                && lines(meta)[j][0] == tag),
{
    lemma_field_in(lines(meta), tag);
}

/// `pat` first occurs in `text` at `i`, spelled out.
pub open spec fn first_at(text: Seq<char>, pat: Seq<char>, i: int) -> bool {
    &&& 0 <= i && i + pat.len() <= text.len()
    &&& text.subrange(i, i + pat.len()) == pat
    &&& forall|j: int|
        0 <= j < i ==> !(j + pat.len() <= text.len() && #[trigger] text.subrange(
            j,
            j + pat.len(),
        ) == pat)
}

/// An occurrence of a pattern means it has a first occurrence.
proof fn lemma_first_occurrence_exists(text: Seq<char>, pat: Seq<char>, i: int)
    requires
        occurs_at(text, pat, i),
    ensures
        exists|f: int| first_occurrence(text, pat, f),
    decreases i,
{
    if exists|j: int| 0 <= j < i && occurs_at(text, pat, j) {
        let j = choose|j: int| 0 <= j < i && occurs_at(text, pat, j);
        lemma_first_occurrence_exists(text, pat, j);
    } else {
        assert(first_occurrence(text, pat, i));
    }
}

/// What follows the first occurrence of a pattern, spelled out.
proof fn lemma_after_first(text: Seq<char>, pat: Seq<char>)
    ensures
        after_first(text, pat) matches Some(v) ==> exists|i: int|
            first_at(text, pat, i) && v == text.skip(i + pat.len()),
        after_first(text, pat) is None ==> forall|i: int| !first_at(text, pat, i),
{
    if contains(text, pat) {
        let o = choose|o: int| occurs_at(text, pat, o);
        lemma_first_occurrence_exists(text, pat, o);
        let i = choose|i: int| first_occurrence(text, pat, i);
        assert(first_occurrence(text, pat, i));
        assert forall|j: int|
            0 <= j < i implies !(j + pat.len() <= text.len() && #[trigger] text.subrange(
            j,
            j + pat.len(),
        ) == pat) by {
            assert(!occurs_at(text, pat, j));
        }
        assert(first_at(text, pat, i));
    } else {
        assert forall|i: int| !first_at(text, pat, i) by {
            if first_at(text, pat, i) {
                assert(occurs_at(text, pat, i));
            }
        }
    }
}

/// The configuration is read as follows: when `mode binary` occurs, the
/// repository is what follows the first `url`; else when `mode source`
/// occurs, the root is what follows the first `root`; else no mode is set.
/// The reading fails only when that keyword is missing.
pub proof fn law_config(r: Option<Config>, text: Seq<char>)
    requires
        config_of(r, text),
    ensures
        r matches Some(Config::Binary { repo }) ==> contains(text, "mode binary"@) && exists|i: int|
            first_at(text, "url"@, i) && repo@ == text.skip(i + 3),
        r matches Some(Config::Source { root }) ==> !contains(text, "mode binary"@) && contains(
            text,
            "mode source"@,
        ) && exists|i: int| first_at(text, "root"@, i) && root@ == text.skip(i + 4),
        (r matches Some(Config::Unspecified)) <==> (!contains(text, "mode binary"@) && !contains(
            text,
            "mode source"@,
        )),
        r is None ==> (contains(text, "mode binary"@) && forall|i: int|
            !first_at(text, "url"@, i)) || (!contains(text, "mode binary"@) && contains(
            text,
            "mode source"@,
        ) && forall|i: int| !first_at(text, "root"@, i)),
{
    reveal_strlit("url");
    reveal_strlit("root");
    lemma_after_first(text, "url"@);
    lemma_after_first(text, "root"@);
}

/// A new file is owned by an installed package exactly when it is a
/// non-empty line of the new footprint, equal to a line of that package's
/// footprint, a file of the new package, and not `usr/share/info/dir`.
pub proof fn law_owned_file(
    fp: Seq<Seq<char>>,
    db: Seq<Installed>,
    packaged: Seq<bool>,
    k: int,
    t: int,
    c: int,
)
    ensures
        owned_at(fp, db, packaged, k, t, c) <==> {
            &&& 0 <= k < db.len()
            &&& 0 <= t < lines(db[k].files@).len()
            &&& 0 <= c < fp.len()
            &&& fp[c] == lines(db[k].files@)[t]
            &&& fp[c].len() > 0
            &&& packaged[c]
            &&& fp[c] != "usr/share/info/dir"@
        },
{
    reveal_strlit("usr/share/info/dir");
    reveal_strlit("/usr/share/info/dir");
    if 0 <= c < fp.len() {
        let x = fp[c];
        if seq!['/'] + x == "/usr/share/info/dir"@ {
            assert(x =~= (seq!['/'] + x).drop_first());
            assert(("/usr/share/info/dir"@).drop_first() =~= "usr/share/info/dir"@);
        }
        if x == "usr/share/info/dir"@ {
            assert(seq!['/'] + x =~= "/usr/share/info/dir"@);
        }
    }
}

/// A path is looked up as what follows its first `/`; a path without `/`
/// has no lookup.
pub proof fn law_query_target(path: Seq<char>)
    ensures
        query_target(path) matches Some(t) ==> exists|i: int|
            0 <= i < path.len() && path[i] == '/' && (forall|j: int|
                0 <= j < i ==> path[j] != '/') && t == path.skip(i + 1),
        query_target(path) is None ==> forall|j: int| 0 <= j < path.len() ==> path[j] != '/',
{
    lemma_find_first(path, is_char('/'));
    let i = find_char(path, '/');
    assert forall|j: int| 0 <= j < i implies path[j] != '/' by {
        assert(!is_char('/')(path[j]));
    }
    if i < path.len() {
        assert(is_char('/')(path[i as int]));
    }
}

/// The owned file a conflict check reports is the first in the order of
/// the installed packages, then their footprint lines, then the new
/// footprint's lines: every owned file is at the reported package or a
/// later one, at the reported entry or a later one within that package, and
/// at the reported line or a later one within that entry.
pub proof fn law_first_owned_file(
    fp: Seq<Seq<char>>,
    db: Seq<Installed>,
    packaged: Seq<bool>,
    k: int,
    t: int,
    c: int,
)
    ensures
        none_owned_before(fp, db, packaged, k, t, c) <==> forall|k2: int, t2: int, c2: int|
            #[trigger] owned_at(fp, db, packaged, k2, t2, c2) ==> k <= k2 && (k == k2 ==> t <= t2
                && (t == t2 ==> c <= c2)),
{
}

} // verus!
