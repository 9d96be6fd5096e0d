use vstd::prelude::*;

verus! {

/// Unicode `White_Space`, the set that `str::trim` removes.
pub open spec fn is_ws(c: char) -> bool {
    let n = c as u32;
    n == 0x20 || (0x09 <= n && n <= 0x0d) || n == 0x85 || n == 0xa0 || n == 0x1680 || (0x2000
        <= n && n <= 0x200a) || n == 0x2028 || n == 0x2029 || n == 0x202f || n == 0x205f || n
        == 0x3000
}

/// `s` without its leading whitespace.
pub open spec fn trim_start(s: Seq<char>) -> Seq<char>
    decreases s.len(),
{
    if s.len() > 0 && is_ws(s[0]) {
        trim_start(s.drop_first())
    } else {
        s
    }
}

/// `s` without its trailing whitespace.
pub open spec fn trim_end(s: Seq<char>) -> Seq<char>
    decreases s.len(),
{
    if s.len() > 0 && is_ws(s.last()) {
        trim_end(s.drop_last())
    } else {
        s
    }
}

/// `s` without leading and trailing whitespace.
pub open spec fn trim(s: Seq<char>) -> Seq<char> {
    trim_end(trim_start(s))
}

/// Whether `c` is whitespace.
pub fn is_ws_char(c: char) -> (r: bool)
    ensures
        r == is_ws(c),
{
    let n = c as u32;
    n == 0x20 || (0x09 <= n && n <= 0x0d) || n == 0x85 || n == 0xa0 || n == 0x1680 || (0x2000
        <= n && n <= 0x200a) || n == 0x2028 || n == 0x2029 || n == 0x202f || n == 0x205f || n
        == 0x3000
}

/// The characters of `s`, in order.
pub fn chars_of(s: &str) -> (r: Vec<char>)
    ensures
        r@ == s@,
{
    let mut r: Vec<char> = Vec::new();
    let mut it = s.chars();
    for c in iter: it
        invariant
            iter.seq() == s@,
            r@ == iter.seq().take(iter.index() as int),
    {
        r.push(c);
    }
    r
}

/// Relies on `FromIterator<char>` for `String`: the string holds exactly the given characters.
#[verifier::external_body]
pub fn string_from_chars(v: &Vec<char>) -> (r: String)
    ensures
        r@ == v@,
{
    v.iter().collect()
}

/// A copy of `v[lo..hi]`.
pub fn slice_chars(v: &Vec<char>, lo: usize, hi: usize) -> (r: Vec<char>)
    requires
        lo <= hi <= v.len(),
    ensures
        r@ == v@.subrange(lo as int, hi as int),
{
    let mut r: Vec<char> = Vec::new();
    let mut i = lo;
    while i < hi
        invariant
            lo <= i <= hi <= v.len(),
            r@ == v@.subrange(lo as int, i as int),
        decreases hi - i,
    {
        r.push(v[i]);
        i = i + 1;
    }
    r
}

/// Appends the characters of `b` to `a`.
pub fn append_chars(a: &mut Vec<char>, b: &Vec<char>)
    ensures
        final(a)@ == old(a)@ + b@,
{
    let mut i: usize = 0;
    while i < b.len()
        invariant
            i <= b.len(),
            a@ == old(a)@ + b@.subrange(0, i as int),
        decreases b.len() - i,
    {
        a.push(b[i]);
        i = i + 1;
    }
    assert(b@.subrange(0, b@.len() as int) =~= b@);
}

/// Leading whitespace does not change what `trim_start` gives.
pub proof fn lemma_trim_start_skip(s: Seq<char>, i: int)
    requires
        0 <= i <= s.len(),
        forall|j: int| 0 <= j < i ==> is_ws(#[trigger] s[j]),
    ensures
        trim_start(s) == trim_start(s.subrange(i, s.len() as int)),
    decreases i,
{
    if i > 0 {
        assert(s.drop_first() =~= s.subrange(1, s.len() as int));
        lemma_trim_start_skip(s.drop_first(), i - 1);
        assert(s.drop_first().subrange(i - 1, s.drop_first().len() as int) =~= s.subrange(
            i,
            s.len() as int,
        ));
    } else {
        assert(s.subrange(0, s.len() as int) =~= s);
    }
}

/// Trailing whitespace does not change what `trim_end` gives.
pub proof fn lemma_trim_end_cut(s: Seq<char>, k: int)
    requires
        0 <= k <= s.len(),
        forall|j: int| k <= j < s.len() ==> is_ws(#[trigger] s[j]),
    ensures
        trim_end(s) == trim_end(s.subrange(0, k)),
    decreases s.len() - k,
{
    if k < s.len() {
        lemma_trim_end_cut(s.drop_last(), k);
        assert(s.drop_last().subrange(0, k) =~= s.subrange(0, k));
    } else {
        assert(s.subrange(0, k) =~= s);
    }
}

/// The characters of `v` without leading and trailing whitespace.
pub fn trim_chars(v: &Vec<char>) -> (r: Vec<char>)
    ensures
        r@ == trim(v@),
{
    let len = v.len();
    let mut lo: usize = 0;
    while lo < len && is_ws_char(v[lo])
        invariant
            lo <= len == v.len(),
            forall|j: int| 0 <= j < lo ==> is_ws(#[trigger] v@[j]),
        decreases len - lo,
    {
        lo = lo + 1;
    }
    proof {
        lemma_trim_start_skip(v@, lo as int);
    }
    let ghost rest = v@.subrange(lo as int, len as int);
    assert(trim_start(rest) == rest);
    let mut hi: usize = len;
    while hi > lo && is_ws_char(v[hi - 1])
        invariant
            lo <= hi <= len == v.len(),
            rest == v@.subrange(lo as int, len as int),
            forall|j: int| hi <= j < len ==> is_ws(#[trigger] v@[j]),
        decreases hi,
    {
        hi = hi - 1;
    }
    proof {
        assert forall|j: int| (hi - lo) <= j < rest.len() implies is_ws(#[trigger] rest[j]) by {
            assert(rest[j] == v@[j + lo]);
        }
        lemma_trim_end_cut(rest, hi - lo);
        assert(rest.subrange(0, hi - lo) =~= v@.subrange(lo as int, hi as int));
    }
    slice_chars(v, lo, hi)
}

/// The views of a sequence of character vectors.
pub open spec fn views(v: Seq<Vec<char>>) -> Seq<Seq<char>> {
    v.map_values(|l: Vec<char>| l@)
}

/// `s` cut at every `'\n'`; the separators are dropped.
pub open spec fn split_lines(s: Seq<char>) -> Seq<Seq<char>>
    decreases s.len(),
{
    if s.len() == 0 {
        seq![Seq::empty()]
    } else if s.last() == '\n' {
        split_lines(s.drop_last()).push(Seq::empty())
    } else {
        let r = split_lines(s.drop_last());
        r.update(r.len() - 1, r.last().push(s.last()))
    }
}

/// Whether `s` ends with the list separator `", "`.
pub open spec fn ends_with_comma_space(s: Seq<char>) -> bool {
    s.len() >= 2 && s[s.len() - 2] == ',' && s[s.len() - 1] == ' '
}

/// `s` cut at every `", "`; the separators are dropped.
pub open spec fn split_comma_space(s: Seq<char>) -> Seq<Seq<char>>
    decreases s.len(),
{
    if s.len() == 0 {
        seq![Seq::empty()]
    } else if ends_with_comma_space(s) {
        split_comma_space(s.subrange(0, s.len() - 2)).push(Seq::empty())
    } else {
        let r = split_comma_space(s.drop_last());
        r.update(r.len() - 1, r.last().push(s.last()))
    }
}

/// Splitting always gives at least one piece.
pub proof fn lemma_split_lines_len(s: Seq<char>)
    ensures
        split_lines(s).len() >= 1,
    decreases s.len(),
{
    if s.len() > 0 {
        lemma_split_lines_len(s.drop_last());
    }
}

/// Splitting always gives at least one piece.
pub proof fn lemma_split_comma_space_len(s: Seq<char>)
    ensures
        split_comma_space(s).len() >= 1,
    decreases s.len(),
{
    if s.len() > 0 {
        if ends_with_comma_space(s) {
            lemma_split_comma_space_len(s.subrange(0, s.len() - 2));
        } else {
            lemma_split_comma_space_len(s.drop_last());
        }
    }
}

/// The lines of `v`, cut at every `'\n'`.
pub fn split_lines_chars(v: &Vec<char>) -> (r: Vec<Vec<char>>)
    ensures
        views(r@) == split_lines(v@),
{
    let mut pieces: Vec<Vec<char>> = Vec::new();
    let mut cur: Vec<char> = Vec::new();
    let mut i: usize = 0;
    assert(v@.take(0) =~= Seq::<char>::empty());
    while i < v.len()
        invariant
            i <= v.len(),
            split_lines(v@.take(i as int)) == views(pieces@).push(cur@),
        decreases v.len() - i,
    {
        let ghost before = v@.take(i as int);
        assert(v@.take(i + 1).drop_last() =~= before);
        proof {
            lemma_split_lines_len(before);
        }
        if v[i] == '\n' {
            pieces.push(cur);
            cur = Vec::new();
            assert(views(pieces@).push(cur@) =~= split_lines(before).push(Seq::empty()));
        } else {
            cur.push(v[i]);
            assert(views(pieces@).push(cur@) =~= split_lines(before).update(
                split_lines(before).len() - 1,
                split_lines(before).last().push(v[i as int]),
            ));
        }
        i = i + 1;
    }
    assert(v@.take(i as int) =~= v@);
    pieces.push(cur);
    assert(views(pieces@) =~= split_lines(v@));
    pieces
}

/// The pieces of `v`, cut at every `", "`.
pub fn split_comma_space_chars(v: &Vec<char>) -> (r: Vec<Vec<char>>)
    ensures
        views(r@) == split_comma_space(v@),
{
    let mut pieces: Vec<Vec<char>> = Vec::new();
    let mut cur: Vec<char> = Vec::new();
    let mut i: usize = 0;
    assert(v@.take(0) =~= Seq::<char>::empty());
    while i < v.len()
        invariant
            i <= v.len(),
            split_comma_space(v@.take(i as int)) == views(pieces@).push(cur@),
            0 < i < v.len() ==> !(v@[i - 1] == ',' && v@[i as int] == ' '),
        decreases v.len() - i,
    {
        let ghost before = v@.take(i as int);
        proof {
            lemma_split_comma_space_len(before);
        }
        if i + 1 < v.len() && v[i] == ',' && v[i + 1] == ' ' {
            assert(v@.take(i + 2).subrange(0, i as int) =~= before);
            assert(ends_with_comma_space(v@.take(i + 2)));
            pieces.push(cur);
            cur = Vec::new();
            assert(views(pieces@).push(cur@) =~= split_comma_space(before).push(Seq::empty()));
            i = i + 2;
        } else {
            assert(v@.take(i + 1).drop_last() =~= before);
            assert(!ends_with_comma_space(v@.take(i + 1)));
            cur.push(v[i]);
            assert(views(pieces@).push(cur@) =~= split_comma_space(before).update(
                split_comma_space(before).len() - 1,
                split_comma_space(before).last().push(v[i as int]),
            ));
            i = i + 1;
        }
    }
    assert(v@.take(i as int) =~= v@);
    pieces.push(cur);
    assert(views(pieces@) =~= split_comma_space(v@));
    pieces
}

/// Whether the delimiter `---` starts at index `i` of `s`.
pub open spec fn is_delim_at(s: Seq<char>, i: int) -> bool {
    0 <= i && i + 3 <= s.len() && s[i] == '-' && s[i + 1] == '-' && s[i + 2] == '-'
}

/// The first index at or after `from` where the delimiter starts.
pub open spec fn find_delim(s: Seq<char>, from: int) -> Option<int>
    decreases s.len() - from,
{
    if from < 0 || from + 3 > s.len() {
        None
    } else if is_delim_at(s, from) {
        Some(from)
    } else {
        find_delim(s, from + 1)
    }
}

/// The last index in `lo..=hi` where the delimiter starts.
pub open spec fn last_delim(s: Seq<char>, lo: int, hi: int) -> Option<int>
    decreases hi - lo + 1,
{
    if hi < lo {
        None
    } else if is_delim_at(s, hi) {
        Some(hi)
    } else {
        last_delim(s, lo, hi - 1)
    }
}

/// An optional index as an integer.
pub open spec fn opt_int(o: Option<usize>) -> Option<int> {
    match o {
        Some(i) => Some(i as int),
        None => None,
    }
}

/// The first index at or after `from` where `---` starts in `v`.
pub fn find_delim_chars(v: &Vec<char>, from: usize) -> (r: Option<usize>)
    ensures
        opt_int(r) == find_delim(v@, from as int),
        match r {
            Some(i) => from <= i && i + 3 <= v.len(),
            None => true,
        },
{
    let mut i = from;
    while i < v.len() && v.len() - i >= 3
        invariant
            from <= i,
            find_delim(v@, from as int) == find_delim(v@, i as int),
        decreases v.len() - i,
    {
        if v[i] == '-' && v[i + 1] == '-' && v[i + 2] == '-' {
            return Some(i);
        }
        i = i + 1;
    }
    None
}

/// `find_delim` gives the first delimiter at or after `from`, or none when there is none.
pub proof fn lemma_find_delim_bounds(s: Seq<char>, from: int)
    requires
        0 <= from,
    ensures
        match find_delim(s, from) {
            Some(i) => from <= i && is_delim_at(s, i) && forall|j: int|
                from <= j < i ==> !is_delim_at(s, j),
            None => forall|j: int| from <= j ==> !is_delim_at(s, j),
        },
    decreases s.len() - from,
{
    if from >= 0 && from + 3 <= s.len() && !is_delim_at(s, from) {
        lemma_find_delim_bounds(s, from + 1);
    }
}

} // verus!
