//! The variables a Pkgfile defines, the META file written from them, and
//! the fields read back from a META file.
use vstd::prelude::*;
use crate::text::{
    concatenate, join_lines, lemma_lines_join_then, lemma_lines_single, lines, lines_exec, newline_free,
    plain_line, slice, texts,
};

verus! {

/// The six values that sourcing a Pkgfile prints, one per line, in the
/// order `version`, `name`, `packager`, `release`, `description`, `source`.
pub struct PkgfileVars {
    pub version: Vec<char>,
    pub name: Vec<char>,
    pub packager: Vec<char>,
    pub release: Vec<char>,
    pub description: Vec<char>,
    pub source: Vec<char>,
}

/// The Pkgfile values are the first six lines of the printed text.
pub open spec fn vars_of(v: PkgfileVars, out: Seq<char>) -> bool {
    let ls = lines(out);
    &&& ls.len() >= 6
    &&& v.version@ == ls[0]
    &&& v.name@ == ls[1]
    &&& v.packager@ == ls[2]
    &&& v.release@ == ls[3]
    &&& v.description@ == ls[4]
    &&& v.source@ == ls[5]
}

/// The META text: `N<name>`, `V<version>`, `r<release>`, `c<collection>`,
/// `D<description>`, `P<packager>`, separated by newlines, with no newline
/// at the end.
pub open spec fn meta_text(
    name: Seq<char>,
    version: Seq<char>,
    release: Seq<char>,
    collection: Seq<char>,
    description: Seq<char>,
    packager: Seq<char>,
) -> Seq<char> {
    seq!['N'] + name + seq!['\n', 'V'] + version + seq!['\n', 'r'] + release + seq!['\n', 'c']
        + collection + seq!['\n', 'D'] + description + seq!['\n', 'P'] + packager
}

/// A line that carries the field `tag`: its first character is `tag`.
pub open spec fn tagged(l: Seq<char>, tag: char) -> bool {
    l.len() > 0 && l[0] == tag
}

/// The value of the first line of `ls` that carries `tag`: what follows the
/// tag on that line.
pub open spec fn field_in(ls: Seq<Seq<char>>, tag: char) -> Option<Seq<char>>
    decreases ls.len(),
{
    if ls.len() == 0 {
        None
    } else if tagged(ls[0], tag) {
        Some(ls[0].skip(1))
    } else {
        field_in(ls.drop_first(), tag)
    }
}

/// The value of the field `tag` in a META text.
pub open spec fn meta_field_spec(meta: Seq<char>, tag: char) -> Option<Seq<char>> {
    field_in(lines(meta), tag)
}

/// The values that sourcing a Pkgfile printed, taken from its first six
/// lines; `None` when it printed fewer than six lines.
pub fn pkgfile_vars(out: &Vec<char>) -> (r: Option<PkgfileVars>)
    ensures
        r is Some <==> lines(out@).len() >= 6,
        r matches Some(v) ==> vars_of(v, out@),
{
    let mut ls = lines_exec(out);
    if ls.len() < 6 {
        return None;
    }
    let ghost all = texts(ls@);
    ls.truncate(6);
    let source = ls.pop().unwrap();
    let description = ls.pop().unwrap();
    let release = ls.pop().unwrap();
    let packager = ls.pop().unwrap();
    let name = ls.pop().unwrap();
    let version = ls.pop().unwrap();
    Some(PkgfileVars { version, name, packager, release, description, source })
}

/// The META text for the package described by `v`, built in `collection`.
pub fn meta_text_exec(v: &PkgfileVars, collection: &Vec<char>) -> (r: Vec<char>)
    ensures
        r@ == meta_text(v.name@, v.version@, v.release@, collection@, v.description@, v.packager@),
{
    let mut r: Vec<char> = vec!['N'];
    r = concatenate(&r, &v.name);
    r.push('\n');
    r.push('V');
    r = concatenate(&r, &v.version);
    r.push('\n');
    r.push('r');
    r = concatenate(&r, &v.release);
    r.push('\n');
    r.push('c');
    r = concatenate(&r, collection);
    r.push('\n');
    r.push('D');
    r = concatenate(&r, &v.description);
    r.push('\n');
    r.push('P');
    r = concatenate(&r, &v.packager);
    assert(r@ =~= meta_text(
        v.name@,
        v.version@,
        v.release@,
        collection@,
        v.description@,
        v.packager@,
    ));
    r
}

/// The value of the field `tag` in a META text: what follows the tag on the
/// first line that starts with it; `None` when no line does.
pub fn meta_field(meta: &Vec<char>, tag: char) -> (r: Option<Vec<char>>)
    ensures
        r is Some <==> meta_field_spec(meta@, tag) is Some,
        r matches Some(v) ==> meta_field_spec(meta@, tag) == Some(v@),
{
    let ls = lines_exec(meta);
    let ghost all = texts(ls@);
    let mut i: usize = 0;
    assert(all.skip(0) =~= all);
    while i < ls.len()
        invariant
            all == texts(ls@),
            i <= ls.len(),
            all.len() == ls.len(),
            all == lines(meta@),
            field_in(all.skip(i as int), tag) == field_in(all, tag),
        decreases ls.len() - i,
    {
        let l = &ls[i];
        assert(all[i as int] == l@);
        assert(all.skip(i as int)[0] == l@);
        if l.len() > 0 && l[0] == tag {
            let v = slice(l, 1, l.len());
            assert(v@ =~= l@.skip(1));
            return Some(v);
        }
        assert(all.skip(i as int).drop_first() =~= all.skip(i + 1));
        i = i + 1;
    }
    assert(all.skip(i as int) =~= Seq::<Seq<char>>::empty());
    None
}

/// The lines of a META text whose fields hold no newline and do not end
/// with a carriage return are its six field lines.
pub proof fn lemma_meta_lines(
    name: Seq<char>,
    version: Seq<char>,
    release: Seq<char>,
    collection: Seq<char>,
    description: Seq<char>,
    packager: Seq<char>,
)
    requires
        plain_line(name),
        plain_line(version),
        plain_line(release),
        plain_line(collection),
        plain_line(description),
        newline_free(packager),
    ensures
        lines(meta_text(name, version, release, collection, description, packager)) == seq![
            seq!['N'] + name,
            seq!['V'] + version,
            seq!['r'] + release,
            seq!['c'] + collection,
            seq!['D'] + description,
            seq!['P'] + packager,
        ],
{
    let ls = seq![
        seq!['N'] + name,
        seq!['V'] + version,
        seq!['r'] + release,
        seq!['c'] + collection,
        seq!['D'] + description,
    ];
    let last = seq!['P'] + packager;
    assert forall|k: int| 0 <= k < ls.len() implies plain_line(#[trigger] ls[k]) by {
        let f = if k == 0 {
            name
        } else if k == 1 {
            version
        } else if k == 2 {
            release
        } else if k == 3 {
            collection
        } else {
            description
        };
        assert(ls[k].drop_first() =~= f);
        assert forall|m: int| 0 <= m < ls[k].len() implies ls[k][m] != '\n' by {
            if m > 0 {
                assert(ls[k][m] == f[m - 1]);
            }
        }
        if f.len() > 0 {
            assert(ls[k].last() == f.last());
        }
    }
    assert forall|m: int| 0 <= m < last.len() implies last[m] != '\n' by {
        if m > 0 {
            assert(last[m] == packager[m - 1]);
        }
    }
    lemma_lines_join_then(ls, last);
    lemma_lines_single(last);
    assert(join_lines(ls) + last =~= meta_text(
        name,
        version,
        release,
        collection,
        description,
        packager,
    )) by {
        reveal_with_fuel(join_lines, 6);
    }
    assert(ls + seq![last] =~= seq![
        seq!['N'] + name,
        seq!['V'] + version,
        seq!['r'] + release,
        seq!['c'] + collection,
        seq!['D'] + description,
        seq!['P'] + packager,
    ]);
}

} // verus!
