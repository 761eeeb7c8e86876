//! Text over `Vec<char>`: the line, word and pattern operations that the
//! package database and the package files are read and written with.
use vstd::prelude::*;

verus! {

// ---------------------------------------------------------------------------
// Specifications
// ---------------------------------------------------------------------------

/// Index of the first element of `s` that satisfies `p`, or `s.len()`.
pub open spec fn find_first(s: Seq<char>, p: spec_fn(char) -> bool) -> nat
    decreases s.len(),
{
    if s.len() == 0 {
        0
    } else if p(s[0]) {
        0
    } else {
        1 + find_first(s.drop_first(), p)
    }
}

/// The test "is `c`".
pub open spec fn is_char(c: char) -> spec_fn(char) -> bool {
    |x: char| x == c
}

/// The test "is white space".
pub open spec fn space_test() -> spec_fn(char) -> bool {
    |x: char| is_space(x)
}

/// The test "is not white space".
pub open spec fn non_space_test() -> spec_fn(char) -> bool {
    |x: char| !is_space(x)
}

/// Index of the first `c` in `s`, or `s.len()` when there is none.
pub open spec fn find_char(s: Seq<char>, c: char) -> nat {
    find_first(s, is_char(c))
}

/// The texts held in a sequence of character vectors.
pub open spec fn texts(v: Seq<Vec<char>>) -> Seq<Seq<char>> {
    v.map_values(|t: Vec<char>| t@)
}

/// `s` holds no newline character.
pub open spec fn newline_free(s: Seq<char>) -> bool {
    forall|k: int| 0 <= k < s.len() ==> s[k] != '\n'
}

/// One carriage return at the end of `s` removed, if there is one.
pub open spec fn strip_cr(s: Seq<char>) -> Seq<char> {
    if s.len() > 0 && s.last() == '\r' {
        s.drop_last()
    } else {
        s
    }
}

/// The lines of `s` as `str::lines` yields them: `s` cut at each `'\n'`,
/// a `'\r'` right before a `'\n'` dropped, and no empty line after a final
/// `'\n'`.
pub open spec fn lines(s: Seq<char>) -> Seq<Seq<char>>
    decreases s.len(),
{
    if s.len() == 0 {
        seq![]
    } else {
        let i = find_char(s, '\n');
        if i >= s.len() {
            seq![s]
        } else {
            seq![strip_cr(s.take(i as int))] + lines(s.skip(i + 1 as int))
        }
    }
}

/// Each line followed by a `'\n'`, as `writeln!` writes them one after
/// another.
pub open spec fn join_lines(ls: Seq<Seq<char>>) -> Seq<char>
    decreases ls.len(),
{
    if ls.len() == 0 {
        seq![]
    } else {
        join_lines(ls.drop_last()) + ls.last() + seq!['\n']
    }
}

/// A line that `lines` gives back unchanged: no newline, no final
/// carriage return.
pub open spec fn plain_line(s: Seq<char>) -> bool {
    newline_free(s) && !(s.len() > 0 && s.last() == '\r')
}

/// `char::is_whitespace`: the characters with the Unicode property
/// `White_Space`.
pub open spec fn is_space(c: char) -> bool {
    let u = c as u32;
    (0x09 <= u && u <= 0x0d) || u == 0x20 || u == 0x85 || u == 0xa0 || u == 0x1680
        || (0x2000 <= u && u <= 0x200a) || u == 0x2028 || u == 0x2029 || u == 0x202f
        || u == 0x205f || u == 0x3000
}

/// The words of `s`, as `str::split_whitespace` yields them: the maximal
/// runs of characters that are not white space.
pub open spec fn words(s: Seq<char>) -> Seq<Seq<char>>
    decreases s.len(),
{
    if s.len() == 0 {
        seq![]
    } else if is_space(s[0]) {
        words(s.drop_first())
    } else {
        let i = find_first(s, space_test());
        proof {
            lemma_find_first(s, space_test());
        }
        seq![s.take(i as int)] + words(s.skip(i as int))
    }
}

/// `s` without the white space at its start.
pub open spec fn trim_start(s: Seq<char>) -> Seq<char> {
    s.skip(find_first(s, non_space_test()) as int)
}

/// `s` without the white space at its end.
pub open spec fn trim_end(s: Seq<char>) -> Seq<char>
    decreases s.len(),
{
    if s.len() > 0 && is_space(s.last()) {
        trim_end(s.drop_last())
    } else {
        s
    }
}

/// `str::trim`: white space removed at both ends.
pub open spec fn trim(s: Seq<char>) -> Seq<char> {
    trim_end(trim_start(s))
}

/// What follows the last `c` in `s`; all of `s` when there is no `c`
/// (the last item of `s.split(c)`).
pub open spec fn last_segment(s: Seq<char>, c: char) -> Seq<char>
    decreases s.len(),
{
    if s.len() == 0 {
        s
    } else if s.last() == c {
        seq![]
    } else {
        last_segment(s.drop_last(), c).push(s.last())
    }
}

/// `pat` occurs in `s` at index `i`.
pub open spec fn occurs_at(s: Seq<char>, pat: Seq<char>, i: int) -> bool {
    0 <= i && i + pat.len() <= s.len() && s.subrange(i, i + pat.len()) == pat
}

/// `pat` occurs somewhere in `s` (`str::contains`).
pub open spec fn contains(s: Seq<char>, pat: Seq<char>) -> bool {
    exists|i: int| occurs_at(s, pat, i)
}

/// `i` is the first index at which `pat` occurs in `s` (`str::find`).
pub open spec fn first_occurrence(s: Seq<char>, pat: Seq<char>, i: int) -> bool {
    occurs_at(s, pat, i) && forall|j: int| 0 <= j < i ==> !occurs_at(s, pat, j)
}

/// `s` begins with `pat`.
pub open spec fn has_prefix(s: Seq<char>, pat: Seq<char>) -> bool {
    pat.len() <= s.len() && s.take(pat.len() as int) == pat
}

/// `s` ends with `pat`.
pub open spec fn has_suffix(s: Seq<char>, pat: Seq<char>) -> bool {
    pat.len() <= s.len() && s.skip(s.len() - pat.len()) == pat
}

/// What follows the first occurrence of `pat` in `s`, when there is one
/// (the second half of `str::split_once`).
pub open spec fn after_first(s: Seq<char>, pat: Seq<char>) -> Option<Seq<char>> {
    if contains(s, pat) {
        let i = choose|i: int| first_occurrence(s, pat, i);
        Some(s.skip(i + pat.len()))
    } else {
        None
    }
}

/// What precedes the first `c` in `s`, when there is one (the first half of
/// `str::split_once` with a character).
pub open spec fn before_char(s: Seq<char>, c: char) -> Option<Seq<char>> {
    let i = find_char(s, c);
    if i < s.len() {
        Some(s.take(i as int))
    } else {
        None
    }
}

/// What follows the first `c` in `s`, when there is one (the second half of
/// `str::split_once` with a character).
pub open spec fn after_char(s: Seq<char>, c: char) -> Option<Seq<char>> {
    let i = find_char(s, c);
    if i < s.len() {
        Some(s.skip(i + 1 as int))
    } else {
        None
    }
}

// ---------------------------------------------------------------------------
// Lemmas
// ---------------------------------------------------------------------------

/// `find_first` is the first index that satisfies `p`.
pub proof fn lemma_find_first(s: Seq<char>, p: spec_fn(char) -> bool)
    ensures
        find_first(s, p) <= s.len(),
        find_first(s, p) < s.len() ==> p(s[find_first(s, p) as int]),
        forall|k: int| 0 <= k < find_first(s, p) ==> !p(#[trigger] s[k]),
    decreases s.len(),
{
    if s.len() > 0 && !p(s[0]) {
        lemma_find_first(s.drop_first(), p);
        assert forall|k: int| 0 <= k < find_first(s, p) implies !p(#[trigger] s[k]) by {
            if k > 0 {
                assert(s[k] == s.drop_first()[k - 1]);
            }
        }
    }
}

/// An index before which nothing satisfies `p`, and which satisfies `p` or
/// is the end, is `find_first`.
pub proof fn lemma_find_first_is(s: Seq<char>, p: spec_fn(char) -> bool, i: int)
    requires
        0 <= i <= s.len(),
        i < s.len() ==> p(s[i]),
        forall|k: int| 0 <= k < i ==> !p(#[trigger] s[k]),
    ensures
        find_first(s, p) == i,
    decreases s.len(),
{
    if s.len() > 0 && i > 0 {
        assert(!p(s[0]));
        let t = s.drop_first();
        assert forall|k: int| 0 <= k < i - 1 implies !p(#[trigger] t[k]) by {
            assert(t[k] == s[k + 1]);
        }
        lemma_find_first_is(t, p, i - 1);
    }
}

/// Cutting `s` at a newline at `i`, with none before it from `start`.
proof fn lemma_lines_step(s: Seq<char>, start: int, i: int)
    requires
        0 <= start <= i < s.len(),
        s[i] == '\n',
        forall|k: int| start <= k < i ==> s[k] != '\n',
    ensures
        lines(s.skip(start)) == seq![strip_cr(s.subrange(start, i))] + lines(s.skip(i + 1)),
{
    let t = s.skip(start);
    let p = is_char('\n');
    assert forall|k: int| 0 <= k < i - start implies !p(#[trigger] t[k]) by {
        assert(t[k] == s[start + k]);
    }
    assert(t[i - start] == s[i]);
    lemma_find_first_is(t, p, i - start);
    assert(t.take(i - start) =~= s.subrange(start, i));
    assert(t.skip(i - start + 1) =~= s.skip(i + 1));
}

/// A rest without newline is one line, or none when empty.
proof fn lemma_lines_last(s: Seq<char>, start: int)
    requires
        0 <= start <= s.len(),
        forall|k: int| start <= k < s.len() ==> s[k] != '\n',
    ensures
        lines(s.skip(start)) == (if start < s.len() {
            seq![s.skip(start)]
        } else {
            Seq::<Seq<char>>::empty()
        }),
{
    let t = s.skip(start);
    let p = is_char('\n');
    assert forall|k: int| 0 <= k < t.len() implies !p(#[trigger] t[k]) by {
        assert(t[k] == s[start + k]);
    }
    lemma_find_first_is(t, p, t.len() as int);
}

/// `join_lines` unfolded from the front.
pub proof fn lemma_join_lines_front(ls: Seq<Seq<char>>)
    requires
        ls.len() > 0,
    ensures
        join_lines(ls) == ls[0] + seq!['\n'] + join_lines(ls.drop_first()),
    decreases ls.len(),
{
    if ls.len() > 1 {
        lemma_join_lines_front(ls.drop_last());
        assert(ls.drop_last().drop_first() =~= ls.drop_first().drop_last());
        assert(ls.drop_last()[0] == ls[0]);
        assert(ls.drop_first().last() == ls.last());
        assert(join_lines(ls.drop_first()) == join_lines(ls.drop_first().drop_last())
            + ls.drop_first().last() + seq!['\n']);
        assert(ls[0] + seq!['\n'] + join_lines(ls.drop_first()) =~= ls[0] + seq!['\n']
            + join_lines(ls.drop_last().drop_first()) + ls.last() + seq!['\n']);
    } else {
        assert(ls.drop_last().len() == 0);
        assert(ls.drop_first().len() == 0);
        assert(join_lines(ls.drop_last()) =~= Seq::<char>::empty());
        assert(join_lines(ls.drop_first()) =~= Seq::<char>::empty());
        assert(ls.last() == ls[0]);
        assert(join_lines(ls) =~= ls[0] + seq!['\n'] + join_lines(ls.drop_first()));
    }
}

/// Reading back lines that were written one per line, followed by more
/// text, gives them back, then the lines of that text; as long as none of
/// them holds a newline or ends with a carriage return.
pub proof fn lemma_lines_join_then(ls: Seq<Seq<char>>, t: Seq<char>)
    requires
        forall|k: int| 0 <= k < ls.len() ==> plain_line(#[trigger] ls[k]),
    ensures
        lines(join_lines(ls) + t) == ls + lines(t),
    decreases ls.len(),
{
    if ls.len() > 0 {
        lemma_join_lines_front(ls);
        let rest = ls.drop_first();
        assert forall|k: int| 0 <= k < rest.len() implies plain_line(#[trigger] rest[k]) by {
            assert(rest[k] == ls[k + 1]);
        }
        lemma_lines_join_then(rest, t);
        let s = join_lines(ls) + t;
        let n = ls[0].len() as int;
        assert(plain_line(ls[0]));
        assert(s =~= ls[0] + seq!['\n'] + (join_lines(rest) + t));
        assert forall|k: int| 0 <= k < n implies s[k] != '\n' by {
            assert(s[k] == ls[0][k]);
        }
        assert(s[n] == '\n');
        lemma_lines_step(s, 0, n);
        assert(s.skip(0) =~= s);
        assert(s.subrange(0, n) =~= ls[0]);
        assert(s.skip(n + 1) =~= join_lines(rest) + t);
        assert(lines(s) =~= ls + lines(t));
    } else {
        assert(join_lines(ls) =~= Seq::<char>::empty());
        assert(join_lines(ls) + t =~= t);
        assert(ls + lines(t) =~= lines(t));
    }
}

/// Reading back lines that were written one per line gives them back, as
/// long as none holds a newline or ends with a carriage return.
pub proof fn lemma_lines_join_lines(ls: Seq<Seq<char>>)
    requires
        forall|k: int| 0 <= k < ls.len() ==> plain_line(#[trigger] ls[k]),
    ensures
        lines(join_lines(ls)) == ls,
{
    lemma_lines_join_then(ls, Seq::<char>::empty());
    assert(join_lines(ls) + Seq::<char>::empty() =~= join_lines(ls));
    assert(lines(Seq::<char>::empty()) =~= Seq::<Seq<char>>::empty());
    assert(ls + Seq::<Seq<char>>::empty() =~= ls);
}

/// A non-empty text without newline is one line.
pub proof fn lemma_lines_single(t: Seq<char>)
    requires
        t.len() > 0,
        newline_free(t),
    ensures
        lines(t) == seq![t],
{
    assert forall|k: int| 0 <= k < t.len() implies !is_char('\n')(#[trigger] t[k]) by {}
    lemma_find_first_is(t, is_char('\n'), t.len() as int);
}

/// Skipping white space at the front of the rest changes no word.
proof fn lemma_words_space(s: Seq<char>, i: int)
    requires
        0 <= i < s.len(),
        is_space(s[i]),
    ensures
        words(s.skip(i)) == words(s.skip(i + 1)),
{
    let t = s.skip(i);
    assert(t[0] == s[i]);
    assert(t.drop_first() =~= s.skip(i + 1));
}

/// A word runs from `start` up to the next white space or the end.
proof fn lemma_words_word(s: Seq<char>, start: int, j: int)
    requires
        0 <= start < j <= s.len(),
        j < s.len() ==> is_space(s[j]),
        forall|k: int| start <= k < j ==> !is_space(#[trigger] s[k]),
    ensures
        words(s.skip(start)) == seq![s.subrange(start, j)] + words(s.skip(j)),
{
    let t = s.skip(start);
    let p = space_test();
    assert(t[0] == s[start]);
    assert forall|k: int| 0 <= k < j - start implies !p(#[trigger] t[k]) by {
        assert(t[k] == s[start + k]);
    }
    if j < s.len() {
        assert(t[j - start] == s[j]);
    }
    lemma_find_first_is(t, p, j - start);
    assert(t.take(j - start) =~= s.subrange(start, j));
    assert(t.skip(j - start) =~= s.skip(j));
}

// ---------------------------------------------------------------------------
// Executable operations
// ---------------------------------------------------------------------------

/// The characters of a string slice.
pub fn chars_of(s: &str) -> (r: Vec<char>)
    ensures
        r@ == s@,
{
    let n = s.unicode_len();
    let mut r: Vec<char> = Vec::new();
    let mut i: usize = 0;
    while i < n
        invariant
            n == s@.len(),
            i <= n,
            r@ == s@.take(i as int),
        decreases n - i,
    {
        let c = s.get_char(i);
        r.push(c);
        i = i + 1;
        assert(r@ =~= s@.take(i as int));
    }
    assert(r@ =~= s@);
    r
}

/// The characters of `s` from `lo` up to `hi`.
pub fn slice(s: &Vec<char>, lo: usize, hi: usize) -> (r: Vec<char>)
    requires
        lo <= hi <= s.len(),
    ensures
        r@ == s@.subrange(lo as int, hi as int),
{
    let mut r: Vec<char> = Vec::new();
    let mut i: usize = lo;
    while i < hi
        invariant
            lo <= i <= hi <= s.len(),
            r@ == s@.subrange(lo as int, i as int),
        decreases hi - i,
    {
        r.push(s[i]);
        i = i + 1;
        assert(r@ =~= s@.subrange(lo as int, i as int));
    }
    r
}

/// `a` followed by `b`.
pub fn concatenate(a: &Vec<char>, b: &Vec<char>) -> (r: Vec<char>)
    ensures
        r@ == a@ + b@,
{
    let mut r = a.clone();
    let mut i: usize = 0;
    while i < b.len()
        invariant
            i <= b.len(),
            r@ == a@ + b@.take(i as int),
        decreases b.len() - i,
    {
        r.push(b[i]);
        i = i + 1;
        assert(r@ =~= a@ + b@.take(i as int));
    }
    assert(b@.take(b.len() as int) =~= b@);
    r
}

/// Whether two texts are equal.
pub fn equal(a: &Vec<char>, b: &Vec<char>) -> (r: bool)
    ensures
        r == (a@ == b@),
{
    if a.len() != b.len() {
        return false;
    }
    let mut i: usize = 0;
    while i < a.len()
        invariant
            a.len() == b.len(),
            i <= a.len(),
            forall|k: int| 0 <= k < i ==> a@[k] == b@[k],
        decreases a.len() - i,
    {
        if a[i] != b[i] {
            return false;
        }
        i = i + 1;
    }
    assert(a@ =~= b@);
    true
}

/// Index of the first `c` in `s`, or `s.len()`.
pub fn find_char_exec(s: &Vec<char>, c: char) -> (r: usize)
    ensures
        r == find_char(s@, c),
{
    let mut i: usize = 0;
    while i < s.len() && s[i] != c
        invariant
            i <= s.len(),
            forall|k: int| 0 <= k < i ==> s@[k] != c,
        decreases s.len() - i,
    {
        i = i + 1;
    }
    proof {
        let p = is_char(c);
        assert forall|k: int| 0 <= k < i implies !p(#[trigger] s@[k]) by {}
        lemma_find_first_is(s@, p, i as int);
    }
    i
}

/// What precedes the first `c` in `s` (`s.split_once(c).map(|(a, _)| a)`).
pub fn before_char_exec(s: &Vec<char>, c: char) -> (r: Option<Vec<char>>)
    ensures
        r matches Some(v) ==> before_char(s@, c) == Some(v@),
        r is None ==> before_char(s@, c) is None,
{
    let i = find_char_exec(s, c);
    if i < s.len() {
        Some(slice(s, 0, i))
    } else {
        None
    }
}

/// What follows the first `c` in `s` (`s.split_once(c).map(|(_, b)| b)`).
pub fn after_char_exec(s: &Vec<char>, c: char) -> (r: Option<Vec<char>>)
    ensures
        r matches Some(v) ==> after_char(s@, c) == Some(v@),
        r is None ==> after_char(s@, c) is None,
{
    let i = find_char_exec(s, c);
    if i < s.len() {
        let v = slice(s, i + 1, s.len());
        assert(v@ =~= s@.skip(i + 1));
        Some(v)
    } else {
        None
    }
}

/// Whether `pat` occurs in `s` at `i`.
pub fn occurs_at_exec(s: &Vec<char>, pat: &Vec<char>, i: usize) -> (r: bool)
    ensures
        r == occurs_at(s@, pat@, i as int),
{
    if i > s.len() || pat.len() > s.len() - i {
        return false;
    }
    let mut k: usize = 0;
    while k < pat.len()
        invariant
            i + pat.len() <= s.len(),
            k <= pat.len(),
            forall|m: int| 0 <= m < k ==> s@[i + m] == pat@[m],
        decreases pat.len() - k,
    {
        if s[i + k] != pat[k] {
            assert(s@.subrange(i as int, i + pat.len())[k as int] != pat@[k as int]);
            return false;
        }
        k = k + 1;
    }
    assert(s@.subrange(i as int, i + pat.len()) =~= pat@);
    true
}

/// The first index at which `pat` occurs in `s` (`str::find`).
pub fn find_str(s: &Vec<char>, pat: &Vec<char>) -> (r: Option<usize>)
    ensures
        r matches Some(i) ==> first_occurrence(s@, pat@, i as int),
        r is None ==> !contains(s@, pat@),
{
    if pat.len() > s.len() {
        return None;
    }
    let last = s.len() - pat.len();
    let mut i: usize = 0;
    loop
        invariant
            last == s.len() - pat.len(),
            i <= last,
            forall|j: int| 0 <= j < i ==> !occurs_at(s@, pat@, j),
        decreases last - i,
    {
        if occurs_at_exec(s, pat, i) {
            return Some(i);
        }
        if i == last {
            assert forall|j: int| !occurs_at(s@, pat@, j) by {
                if 0 <= j && j < i {
                }
            }
            return None;
        }
        i = i + 1;
    }
}

/// Whether `pat` occurs in `s` (`str::contains`).
pub fn contains_exec(s: &Vec<char>, pat: &Vec<char>) -> (r: bool)
    ensures
        r == contains(s@, pat@),
{
    match find_str(s, pat) {
        Some(_) => true,
        None => false,
    }
}

/// What follows the first occurrence of `pat` in `s`
/// (`s.split_once(pat).map(|(_, b)| b)`).
pub fn after_first_exec(s: &Vec<char>, pat: &Vec<char>) -> (r: Option<Vec<char>>)
    ensures
        r matches Some(v) ==> after_first(s@, pat@) == Some(v@),
        r is None ==> after_first(s@, pat@) is None,
{
    match find_str(s, pat) {
        Some(i) => {
            proof {
                let j = choose|j: int| first_occurrence(s@, pat@, j);
                assert(first_occurrence(s@, pat@, j));
                if j < i {
                    assert(!occurs_at(s@, pat@, j));
                } else if i < j {
                    assert(!occurs_at(s@, pat@, i as int));
                }
            }
            let n = pat.len();
            assert(occurs_at(s@, pat@, i as int));
            assert(i + n <= s.len());
            let v = slice(s, i + n, s.len());
            assert(v@ =~= s@.skip(i + n));
            Some(v)
        },
        None => None,
    }
}

/// Whether `s` begins with `pat`.
pub fn has_prefix_exec(s: &Vec<char>, pat: &Vec<char>) -> (r: bool)
    ensures
        r == has_prefix(s@, pat@),
{
    if pat.len() > s.len() {
        return false;
    }
    let b = occurs_at_exec(s, pat, 0);
    assert(s@.subrange(0, pat.len() as int) =~= s@.take(pat.len() as int));
    b
}

/// Whether `s` ends with `pat`.
pub fn has_suffix_exec(s: &Vec<char>, pat: &Vec<char>) -> (r: bool)
    ensures
        r == has_suffix(s@, pat@),
{
    if pat.len() > s.len() {
        return false;
    }
    let b = occurs_at_exec(s, pat, s.len() - pat.len());
    assert(s@.subrange(s.len() - pat.len(), s.len() - pat.len() + pat.len()) =~= s@.skip(
        s.len() - pat.len(),
    ));
    b
}

/// `s` without one final carriage return.
pub fn strip_cr_exec(s: Vec<char>) -> (r: Vec<char>)
    ensures
        r@ == strip_cr(s@),
{
    let mut s = s;
    if s.len() > 0 && s[s.len() - 1] == '\r' {
        s.pop();
    }
    s
}

/// The lines of `s` (`str::lines`).
pub fn lines_exec(s: &Vec<char>) -> (r: Vec<Vec<char>>)
    ensures
        texts(r@) == lines(s@),
{
    let mut r: Vec<Vec<char>> = Vec::new();
    let mut start: usize = 0;
    let mut i: usize = 0;
    assert(s@.skip(0) =~= s@);
    while i < s.len()
        invariant
            start <= i <= s.len(),
            forall|k: int| start <= k < i ==> s@[k] != '\n',
            texts(r@) + lines(s@.skip(start as int)) == lines(s@),
        decreases s.len() - i,
    {
        if s[i] == '\n' {
            proof {
                lemma_lines_step(s@, start as int, i as int);
            }
            let line = strip_cr_exec(slice(s, start, i));
            let ghost before = texts(r@);
            r.push(line);
            assert(texts(r@) =~= before.push(line@));
            assert(texts(r@) + lines(s@.skip(i + 1)) =~= before + (seq![
                strip_cr(s@.subrange(start as int, i as int)),
            ] + lines(s@.skip(i + 1))));
            start = i + 1;
        }
        i = i + 1;
    }
    proof {
        lemma_lines_last(s@, start as int);
    }
    if start < s.len() {
        let line = slice(s, start, s.len());
        let ghost before = texts(r@);
        r.push(line);
        assert(line@ =~= s@.skip(start as int));
        assert(texts(r@) =~= before + seq![s@.skip(start as int)]);
    } else {
        assert(texts(r@) =~= texts(r@) + Seq::<Seq<char>>::empty());
    }
    r
}

/// Each line followed by a newline (what `writeln!` writes for each).
pub fn join_lines_exec(ls: &Vec<Vec<char>>) -> (r: Vec<char>)
    ensures
        r@ == join_lines(texts(ls@)),
{
    let mut r: Vec<char> = Vec::new();
    let mut i: usize = 0;
    let ghost d = texts(ls@);
    assert(d.take(0) =~= Seq::<Seq<char>>::empty());
    while i < ls.len()
        invariant
            d == texts(ls@),
            i <= ls.len(),
            r@ == join_lines(d.take(i as int)),
        decreases ls.len() - i,
    {
        r = concatenate(&r, &ls[i]);
        r.push('\n');
        assert(d.take(i + 1).drop_last() =~= d.take(i as int));
        assert(d.take(i + 1).last() == ls[i as int]@);
        i = i + 1;
    }
    assert(d.take(ls.len() as int) =~= d);
    r
}

/// Whether `c` is white space (`char::is_whitespace`).
pub fn is_space_exec(c: char) -> (r: bool)
    ensures
        r == is_space(c),
{
    let u = c as u32;
    (0x09 <= u && u <= 0x0d) || u == 0x20 || u == 0x85 || u == 0xa0 || u == 0x1680 || (0x2000
        <= u && u <= 0x200a) || u == 0x2028 || u == 0x2029 || u == 0x202f || u == 0x205f || u
        == 0x3000
}

/// The words of `s` (`str::split_whitespace`).
pub fn words_exec(s: &Vec<char>) -> (r: Vec<Vec<char>>)
    ensures
        texts(r@) == words(s@),
{
    let mut r: Vec<Vec<char>> = Vec::new();
    let mut i: usize = 0;
    assert(s@.skip(0) =~= s@);
    while i < s.len()
        invariant
            i <= s.len(),
            texts(r@) + words(s@.skip(i as int)) == words(s@),
        decreases s.len() - i,
    {
        if is_space_exec(s[i]) {
            proof {
                lemma_words_space(s@, i as int);
            }
            i = i + 1;
        } else {
            let start = i;
            while i < s.len() && !is_space_exec(s[i])
                invariant
                    start < s.len(),
                    start <= i <= s.len(),
                    !is_space(s@[start as int]),
                    forall|k: int| start <= k < i ==> !is_space(#[trigger] s@[k]),
                decreases s.len() - i,
            {
                i = i + 1;
            }
            proof {
                lemma_words_word(s@, start as int, i as int);
            }
            let w = slice(s, start, i);
            let ghost before = texts(r@);
            r.push(w);
            assert(texts(r@) + words(s@.skip(i as int)) =~= before + (seq![
                s@.subrange(start as int, i as int),
            ] + words(s@.skip(i as int))));
        }
    }
    assert(s@.skip(s.len() as int) =~= Seq::<char>::empty());
    assert(texts(r@) =~= texts(r@) + Seq::<Seq<char>>::empty());
    r
}

/// `s` without white space at either end (`str::trim`).
pub fn trim_exec(s: &Vec<char>) -> (r: Vec<char>)
    ensures
        r@ == trim(s@),
{
    let mut a: usize = 0;
    while a < s.len() && is_space_exec(s[a])
        invariant
            a <= s.len(),
            forall|k: int| 0 <= k < a ==> is_space(#[trigger] s@[k]),
        decreases s.len() - a,
    {
        a = a + 1;
    }
    proof {
        let p = non_space_test();
        assert forall|k: int| 0 <= k < a implies !p(#[trigger] s@[k]) by {}
        lemma_find_first_is(s@, p, a as int);
    }
    let ghost t = s@.skip(a as int);
    let mut b: usize = s.len();
    while b > a && is_space_exec(s[b - 1])
        invariant
            a <= b <= s.len(),
            t == s@.skip(a as int),
            trim_end(s@.subrange(a as int, b as int)) == trim_end(t),
        decreases b,
    {
        assert(s@.subrange(a as int, b - 1) =~= s@.subrange(a as int, b as int).drop_last());
        b = b - 1;
    }
    assert(trim_end(s@.subrange(a as int, b as int)) == s@.subrange(a as int, b as int));
    slice(s, a, b)
}

/// What follows the last `c` in `s` (`s.split(c).last()`).
pub fn last_segment_exec(s: &Vec<char>, c: char) -> (r: Vec<char>)
    ensures
        r@ == last_segment(s@, c),
{
    let mut r: Vec<char> = Vec::new();
    let mut i: usize = 0;
    assert(s@.take(0) =~= Seq::<char>::empty());
    while i < s.len()
        invariant
            i <= s.len(),
            r@ == last_segment(s@.take(i as int), c),
        decreases s.len() - i,
    {
        assert(s@.take(i + 1).drop_last() =~= s@.take(i as int));
        if s[i] == c {
            r = Vec::new();
        } else {
            r.push(s[i]);
        }
        i = i + 1;
    }
    assert(s@.take(s.len() as int) =~= s@);
    r
}

} // verus!
