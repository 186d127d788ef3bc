use vstd::prelude::*;

verus! {

/// The index of the last occurrence of `c` in `s`, or -1 when there is none.
pub open spec fn last_index_of(s: Seq<char>, c: char) -> int
    decreases s.len(),
{
    if s.len() == 0 {
        -1
    } else if s.last() == c {
        s.len() - 1
    } else {
        last_index_of(s.drop_last(), c)
    }
}

/// The last component of a `/`-separated path: everything after the last `/`.
pub open spec fn base_name(p: Seq<char>) -> Seq<char> {
    p.subrange(last_index_of(p, '/') + 1, p.len() as int)
}

/// `name` placed inside directory `dir`; an absolute `name` stands alone.
pub open spec fn join_path(dir: Seq<char>, name: Seq<char>) -> Seq<char> {
    if dir.len() == 0 || (name.len() > 0 && name[0] == '/') {
        name
    } else if dir.last() == '/' {
        dir + name
    } else {
        dir + seq!['/'] + name
    }
}

/// `name` with `_` and `stamp` inserted before its extension (the part from the
/// last `.`, when that `.` is not the first character), or appended when the
/// name has no extension.
pub open spec fn with_suffix(name: Seq<char>, stamp: Seq<char>) -> Seq<char> {
    let d = last_index_of(name, '.');
    if d > 0 {
        name.subrange(0, d) + seq!['_'] + stamp + name.subrange(d, name.len() as int)
    } else {
        name + seq!['_'] + stamp
    }
}

proof fn lemma_last_index_bounds(s: Seq<char>, c: char)
    ensures
        -1 <= last_index_of(s, c) < s.len(),
        last_index_of(s, c) >= 0 ==> s[last_index_of(s, c)] == c,
    decreases s.len(),
{
    if s.len() > 0 {
        lemma_last_index_bounds(s.drop_last(), c);
    }
}

/// One past the index of the last `c` in `s`; zero when `s` holds no `c`.
pub fn find_last(s: &str, c: char) -> (r: usize)
    ensures
        r as int == last_index_of(s@, c) + 1,
        r <= s@.len(),
{
    let mut i: usize = s.unicode_len();
    assert(s@.subrange(0, i as int) =~= s@);
    while i > 0 && s.get_char(i - 1) != c
        invariant
            i <= s@.len(),
            last_index_of(s@, c) == last_index_of(s@.subrange(0, i as int), c),
        decreases i,
    {
        assert(s@.subrange(0, i as int).drop_last() =~= s@.subrange(0, i - 1));
        i = i - 1;
    }
    proof {
        if i == 0 {
            assert(s@.subrange(0, 0) =~= Seq::<char>::empty());
        }
    }
    i
}

/// The last component of the path `p`.
pub fn file_name_of(p: &str) -> (r: String)
    ensures
        r@ == base_name(p@),
{
    let start = find_last(p, '/');
    proof {
        lemma_last_index_bounds(p@, '/');
    }
    String::from_str(p.substring_char(start, p.unicode_len()))
}

/// Joins `name` onto the directory `dir`.
pub fn join(dir: &str, name: &str) -> (r: String)
    ensures
        r@ == join_path(dir@, name@),
{
    let n = dir.unicode_len();
    let mut out = String::from_str(dir);
    if n == 0 || (name.unicode_len() > 0 && name.get_char(0) == '/') {
        return String::from_str(name);
    }
    if dir.get_char(n - 1) != '/' {
        out.append("/");
    }
    out.append(name);
    proof {
        reveal_strlit("/");
    }
    out
}

/// Inserts `_` and `stamp` before the extension of the file name `name`.
pub fn suffixed_name(name: &str, stamp: &str) -> (r: String)
    ensures
        r@ == with_suffix(name@, stamp@),
{
    let k = find_last(name, '.');
    proof {
        reveal_strlit("_");
        lemma_last_index_bounds(name@, '.');
    }
    if k > 1 {
        let mut out = String::from_str(name.substring_char(0, k - 1));
        out.append("_");
        out.append(stamp);
        out.append(name.substring_char(k - 1, name.unicode_len()));
        out
    } else {
        let mut out = String::from_str(name);
        out.append("_");
        out.append(stamp);
        out
    }
}

} // verus!
