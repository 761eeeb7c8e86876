//! The configuration in `/etc/raw.conf` and the repository's metadata
//! listing.
use vstd::prelude::*;
use crate::text::{
    after_first, after_first_exec, chars_of, concatenate, contains, contains_exec, has_prefix,
    has_prefix_exec, lines, lines_exec, texts,
};

verus! {

/// The mode the configuration sets.
pub enum Config {
    /// Packages come from the repository at `repo`.
    Binary { repo: Vec<char> },
    /// Packages are built from the ports tree at `root`.
    Source { root: Vec<char> },
    /// The configuration names no mode.
    Unspecified,
}

/// `r` is what the configuration text `text` sets: with `mode binary` the
/// text after the first `url`, else with `mode source` the text after the
/// first `root`, else no mode. `None` when that keyword is missing.
pub open spec fn config_of(r: Option<Config>, text: Seq<char>) -> bool {
    if contains(text, "mode binary"@) {
        match after_first(text, "url"@) {
            None => r is None,
            Some(v) => r matches Some(Config::Binary { repo }) && repo@ == v,
        }
    } else if contains(text, "mode source"@) {
        match after_first(text, "root"@) {
            None => r is None,
            Some(v) => r matches Some(Config::Source { root }) && root@ == v,
        }
    } else {
        r matches Some(Config::Unspecified)
    }
}

/// What the configuration text `text` sets; `None` when it sets a mode but
/// not the value that mode needs.
pub fn getconf(text: &Vec<char>) -> (r: Option<Config>)
    ensures
        config_of(r, text@),
{
    if contains_exec(text, &chars_of("mode binary")) {
        match after_first_exec(text, &chars_of("url")) {
            None => None,
            Some(repo) => Some(Config::Binary { repo }),
        }
    } else if contains_exec(text, &chars_of("mode source")) {
        match after_first_exec(text, &chars_of("root")) {
            None => None,
            Some(root) => Some(Config::Source { root }),
        }
    } else {
        Some(Config::Unspecified)
    }
}

/// Where a package stands in the repository's metadata.
pub enum Listing {
    /// Its name occurs nowhere in the metadata.
    Missing,
    /// The first line that starts with `<name>-`.
    Entry(Vec<char>),
    /// Its name occurs, but no line starts with `<name>-`.
    NoEntry,
}

/// The first of `ls` that starts with `p`.
pub open spec fn first_with_prefix(ls: Seq<Seq<char>>, p: Seq<char>) -> Option<Seq<char>>
    decreases ls.len(),
{
    if ls.len() == 0 {
        None
    } else if has_prefix(ls[0], p) {
        Some(ls[0])
    } else {
        first_with_prefix(ls.drop_first(), p)
    }
}

/// `r` is where `pkg` stands in the metadata `metadata`.
pub open spec fn listing_of(r: Listing, metadata: Seq<char>, pkg: Seq<char>) -> bool {
    if !contains(metadata, pkg) {
        r is Missing
    } else {
        match first_with_prefix(lines(metadata), pkg + seq!['-']) {
            None => r is NoEntry,
            Some(l) => r matches Listing::Entry(e) && e@ == l,
        }
    }
}

/// Where `pkg` stands in the repository metadata `metadata`.
pub fn get(metadata: &Vec<char>, pkg: &Vec<char>) -> (r: Listing)
    ensures
        listing_of(r, metadata@, pkg@),
{
    if !contains_exec(metadata, pkg) {
        return Listing::Missing;
    }
    let mut prefix = concatenate(pkg, &Vec::new());
    prefix.push('-');
    assert(prefix@ =~= pkg@ + seq!['-']);
    let ls = lines_exec(metadata);
    let ghost all = texts(ls@);
    let mut i: usize = 0;
    assert(all.skip(0) =~= all);
    while i < ls.len()
        invariant
            all == texts(ls@),
            all == lines(metadata@),
            prefix@ == pkg@ + seq!['-'],
            contains(metadata@, pkg@),
            i <= ls.len(),
            first_with_prefix(all.skip(i as int), prefix@) == first_with_prefix(all, prefix@),
        decreases ls.len() - i,
    {
        assert(all.skip(i as int)[0] == ls@[i as int]@);
        if has_prefix_exec(&ls[i], &prefix) {
            let e = concatenate(&ls[i], &Vec::new());
            assert(e@ =~= ls@[i as int]@);
            return Listing::Entry(e);
        }
        assert(all.skip(i as int).drop_first() =~= all.skip(i + 1));
        i = i + 1;
    }
    assert(all.skip(i as int) =~= Seq::<Seq<char>>::empty());
    Listing::NoEntry
}

} // verus!
