use vstd::prelude::*;

use crate::text::{
    append_chars, chars_of, find_delim, find_delim_chars, is_delim_at, opt_int, slice_chars,
    split_lines, split_lines_chars, string_from_chars, trim, trim_chars, views,
};

verus! {

/// Why a header or a collection document could not be read.
#[derive(Debug, Clone, Copy, PartialEq, Eq, Structural)]
pub enum ErrorKind {
    /// The text does not start with `---`.
    MissingLeadingDelimiter,
    /// No second `---` follows the first.
    MissingTrailingDelimiter,
    /// A header line has no `:` and is not a list item.
    MalformedLine,
    /// A list item comes before any key.
    DanglingListItem,
    /// A collection document lacks `title` or `created`.
    MissingRequiredField,
}

impl ErrorKind {
    /// A message for people.
    pub fn message(&self) -> (r: &'static str)
        ensures
            *self == ErrorKind::MissingLeadingDelimiter ==> r@ == "Tag start was not at the beginning of the file"@,
            *self == ErrorKind::MissingTrailingDelimiter ==> r@ == "No end indicator for tags"@,
            *self == ErrorKind::MalformedLine ==> r@ == "Header line has no colon"@,
            *self == ErrorKind::DanglingListItem ==> r@ == "List item has no key to belong to"@,
            *self == ErrorKind::MissingRequiredField ==> r@ == "Collection is missing title or created"@,
    {
        match self {
            ErrorKind::MissingLeadingDelimiter => "Tag start was not at the beginning of the file",
            ErrorKind::MissingTrailingDelimiter => "No end indicator for tags",
            ErrorKind::MalformedLine => "Header line has no colon",
            ErrorKind::DanglingListItem => "List item has no key to belong to",
            ErrorKind::MissingRequiredField => "Collection is missing title or created",
        }
    }
}

/// A key and its value.
pub type Pair = (Seq<char>, Seq<char>);

/// The first index at or after `i` whose key is `k`.
pub open spec fn key_index_from<V>(m: Seq<(Seq<char>, V)>, k: Seq<char>, i: int) -> Option<int>
    decreases m.len() - i,
{
    if i < 0 || i >= m.len() {
        None
    } else if m[i].0 == k {
        Some(i)
    } else {
        key_index_from(m, k, i + 1)
    }
}

/// The first index whose key is `k`.
pub open spec fn key_index<V>(m: Seq<(Seq<char>, V)>, k: Seq<char>) -> Option<int> {
    key_index_from(m, k, 0)
}

/// The value stored under `k`.
pub open spec fn lookup<V>(m: Seq<(Seq<char>, V)>, k: Seq<char>) -> Option<V> {
    match key_index(m, k) {
        Some(i) => Some(m[i].1),
        None => None,
    }
}

/// No key occurs twice.
pub open spec fn unique_keys<V>(m: Seq<(Seq<char>, V)>) -> bool {
    forall|i: int, j: int| 0 <= i < j < m.len() ==> m[i].0 != m[j].0
}

/// `m` with `p` written in: in place where its key is present, at the end otherwise.
pub open spec fn upsert(m: Seq<Pair>, p: Pair) -> Seq<Pair> {
    match key_index(m, p.0) {
        Some(i) => m.update(i, p),
        None => m.push(p),
    }
}

/// The mapping that the pairs make, later pairs overwriting earlier ones of the same key;
/// each key stays where it first appeared.
pub open spec fn materialize(pairs: Seq<Pair>) -> Seq<Pair>
    decreases pairs.len(),
{
    if pairs.len() == 0 {
        Seq::empty()
    } else {
        upsert(materialize(pairs.drop_last()), pairs.last())
    }
}

/// The value of the last pair whose key is `k`.
pub open spec fn last_value(pairs: Seq<Pair>, k: Seq<char>) -> Option<Seq<char>>
    decreases pairs.len(),
{
    if pairs.len() == 0 {
        None
    } else if pairs.last().0 == k {
        Some(pairs.last().1)
    } else {
        last_value(pairs.drop_last(), k)
    }
}

/// The first index at or after `i` that holds `:`.
pub open spec fn colon_from(s: Seq<char>, i: int) -> Option<int>
    decreases s.len() - i,
{
    if i < 0 || i >= s.len() {
        None
    } else if s[i] == ':' {
        Some(i)
    } else {
        colon_from(s, i + 1)
    }
}

/// The part of a header line before its first `:` (the whole line if it has none), trimmed.
pub open spec fn key_part(line: Seq<char>) -> Seq<char> {
    match colon_from(line, 0) {
        Some(i) => trim(line.take(i)),
        None => trim(line),
    }
}

/// The part of a header line after its first `:`, trimmed.
pub open spec fn value_part(line: Seq<char>) -> Seq<char> {
    match colon_from(line, 0) {
        Some(i) => trim(line.skip(i + 1)),
        None => Seq::empty(),
    }
}

/// Whether a key part starts with the list marker `"- "`.
pub open spec fn is_list_item(before: Seq<char>) -> bool {
    before.len() >= 2 && before[0] == '-' && before[1] == ' '
}

/// `a, b`: two values joined by the list separator.
pub open spec fn join_item(value: Seq<char>, item: Seq<char>) -> Seq<char> {
    if value.len() == 0 {
        item
    } else {
        value + seq![',', ' '] + item
    }
}

/// One header line read into the pairs read so far.
pub open spec fn fold_line(acc: Seq<Pair>, line: Seq<char>) -> Result<Seq<Pair>, ErrorKind> {
    let before = key_part(line);
    if is_list_item(before) {
        if acc.len() == 0 {
            Err(ErrorKind::DanglingListItem)
        } else {
            let last = acc.last();
            Ok(acc.drop_last().push((last.0, join_item(last.1, before.skip(2)))))
        }
    } else if colon_from(line, 0) is Some {
        Ok(acc.push((before, value_part(line))))
    } else {
        Err(ErrorKind::MalformedLine)
    }
}

/// The pairs that header lines make, or the error of the first line that fails.
pub open spec fn fold_lines(lines: Seq<Seq<char>>) -> Result<Seq<Pair>, ErrorKind>
    decreases lines.len(),
{
    if lines.len() == 0 {
        Ok(Seq::empty())
    } else {
        match fold_lines(lines.drop_last()) {
            Ok(acc) => fold_line(acc, lines.last()),
            Err(e) => Err(e),
        }
    }
}

/// The lines of a header region: none when it is blank.
pub open spec fn header_lines(region: Seq<char>) -> Seq<Seq<char>> {
    if trim(region).len() == 0 {
        Seq::empty()
    } else {
        split_lines(trim(region))
    }
}

/// Where the header region of `text` ends: the start of the closing delimiter.
pub open spec fn header_end(text: Seq<char>) -> Option<int> {
    find_delim(text, 3)
}

/// The pairs of the header of `text`, in the order their lines give them, before
/// duplicate keys are merged.
pub open spec fn raw_pairs(text: Seq<char>) -> Result<Seq<Pair>, ErrorKind> {
    if !is_delim_at(text, 0) {
        Err(ErrorKind::MissingLeadingDelimiter)
    } else {
        match header_end(text) {
            None => Err(ErrorKind::MissingTrailingDelimiter),
            Some(end) => fold_lines(header_lines(text.subrange(3, end))),
        }
    }
}

/// The metadata mapping of the header of `text`.
pub open spec fn parse_front_matter(text: Seq<char>) -> Result<Seq<Pair>, ErrorKind> {
    match raw_pairs(text) {
        Ok(pairs) => Ok(materialize(pairs)),
        Err(e) => Err(e),
    }
}

/// `key_index_from` gives the first index at or after `i` holding `k`, or none.
pub proof fn lemma_key_index_from<V>(m: Seq<(Seq<char>, V)>, k: Seq<char>, i: int)
    requires
        0 <= i,
    ensures
        match key_index_from(m, k, i) {
            Some(j) => i <= j < m.len() && m[j].0 == k && forall|l: int|
                i <= l < j ==> m[l].0 != k,
            None => forall|l: int| i <= l < m.len() ==> m[l].0 != k,
        },
    decreases m.len() - i,
{
    if i < m.len() && m[i].0 != k {
        lemma_key_index_from(m, k, i + 1);
    }
}

/// The first index holding `k` is the one `key_index` gives, and an absent key gives none.
pub proof fn lemma_key_index<V>(m: Seq<(Seq<char>, V)>, k: Seq<char>)
    ensures
        match key_index(m, k) {
            Some(j) => 0 <= j < m.len() && m[j].0 == k && forall|l: int| 0 <= l < j ==> m[l].0 != k,
            None => forall|l: int| 0 <= l < m.len() ==> m[l].0 != k,
        },
{
    lemma_key_index_from(m, k, 0);
}

/// The first index holding `k` is what `key_index` gives.
pub proof fn lemma_key_index_is<V>(m: Seq<(Seq<char>, V)>, k: Seq<char>, j: int)
    requires
        0 <= j < m.len(),
        m[j].0 == k,
        forall|l: int| 0 <= l < j ==> m[l].0 != k,
    ensures
        key_index(m, k) == Some(j),
{
    lemma_key_index(m, k);
    if key_index(m, k) != Some(j) {
        match key_index(m, k) {
            Some(j2) => {
                if j2 < j {
                } else {
                    assert(m[j].0 != k);
                }
            },
            None => {
                assert(m[j].0 != k);
            },
        }
    }
}

/// A key that no entry holds has no index.
pub proof fn lemma_key_index_absent<V>(m: Seq<(Seq<char>, V)>, k: Seq<char>)
    requires
        forall|l: int| 0 <= l < m.len() ==> m[l].0 != k,
    ensures
        key_index(m, k) is None,
{
    lemma_key_index(m, k);
}

proof fn lemma_upsert(m: Seq<Pair>, p: Pair, k: Seq<char>)
    requires
        unique_keys(m),
    ensures
        unique_keys(upsert(m, p)),
        lookup(upsert(m, p), k) == if p.0 == k {
            Some(p.1)
        } else {
            lookup(m, k)
        },
{
    let u = upsert(m, p);
    lemma_key_index(m, p.0);
    lemma_key_index(m, k);
    match key_index(m, p.0) {
        Some(i) => {
            assert forall|a: int, b: int| 0 <= a < b < u.len() implies u[a].0 != u[b].0 by {
                assert(u[a].0 == m[a].0);
                assert(u[b].0 == m[b].0);
            }
            if p.0 == k {
                lemma_key_index_is(u, k, i);
            } else {
                match key_index(m, k) {
                    Some(j) => lemma_key_index_is(u, k, j),
                    None => lemma_key_index_absent(u, k),
                }
            }
        },
        None => {
            if p.0 == k {
                lemma_key_index_is(u, k, m.len() as int);
            } else {
                match key_index(m, k) {
                    Some(j) => lemma_key_index_is(u, k, j),
                    None => lemma_key_index_absent(u, k),
                }
            }
        },
    }
}

/// Reading a key of a materialized mapping gives the value of the last pair with that key,
/// and no key that no pair has; the mapping holds each key once.
pub proof fn lemma_materialize(pairs: Seq<Pair>, k: Seq<char>)
    ensures
        unique_keys(materialize(pairs)),
        lookup(materialize(pairs), k) == last_value(pairs, k),
    decreases pairs.len(),
{
    if pairs.len() > 0 {
        lemma_materialize(pairs.drop_last(), k);
        lemma_upsert(materialize(pairs.drop_last()), pairs.last(), k);
    }
}

/// Of every header that reads without error: reading a key gives the value of the last
/// header pair written under it, and a key that no header line wrote is absent.
pub proof fn lemma_lookup_last_write(text: Seq<char>, k: Seq<char>)
    requires
        raw_pairs(text) is Ok,
    ensures
        parse_front_matter(text) == Ok::<Seq<Pair>, ErrorKind>(materialize(raw_pairs(text)->Ok_0)),
        lookup(parse_front_matter(text)->Ok_0, k) == last_value(raw_pairs(text)->Ok_0, k),
        last_value(raw_pairs(text)->Ok_0, k) is None <==> forall|i: int|
            0 <= i < raw_pairs(text)->Ok_0.len() ==> (#[trigger] raw_pairs(text)->Ok_0[i]).0 != k,
{
    lemma_materialize(raw_pairs(text)->Ok_0, k);
    lemma_last_value_none(raw_pairs(text)->Ok_0, k);
}

proof fn lemma_last_value_none(pairs: Seq<Pair>, k: Seq<char>)
    ensures
        last_value(pairs, k) is None <==> forall|i: int|
            0 <= i < pairs.len() ==> (#[trigger] pairs[i]).0 != k,
    decreases pairs.len(),
{
    if pairs.len() > 0 {
        lemma_last_value_none(pairs.drop_last(), k);
        if last_value(pairs, k) is None {
            assert forall|i: int| 0 <= i < pairs.len() implies (#[trigger] pairs[i]).0 != k by {
                if i < pairs.len() - 1 {
                    assert(pairs.drop_last()[i] == pairs[i]);
                }
            }
        } else if pairs.last().0 != k {
            let i = choose|i: int| 0 <= i < pairs.len() - 1 && (#[trigger] pairs.drop_last()[i]).0 == k;
            assert(pairs[i] == pairs.drop_last()[i]);
        }
    }
}

/// The header metadata of a document: each key with its value, in order of first appearance.
pub struct Tags {
    entries: Vec<(String, String)>,
}

/// The views of key and value strings.
pub open spec fn entry_views(s: Seq<(String, String)>) -> Seq<Pair> {
    s.map_values(|e: (String, String)| (e.0@, e.1@))
}

/// The views of key and value characters.
pub open spec fn pair_views(s: Seq<(Vec<char>, Vec<char>)>) -> Seq<Pair> {
    s.map_values(|e: (Vec<char>, Vec<char>)| (e.0@, e.1@))
}

impl View for Tags {
    type V = Seq<Pair>;

    closed spec fn view(&self) -> Seq<Pair> {
        entry_views(self.entries@)
    }
}

/// The index of the entry whose key is `k`.
fn find_entry(entries: &Vec<(String, String)>, k: &String) -> (r: Option<usize>)
    ensures
        opt_int(r) == key_index(entry_views(entries@), k@),
        match r {
            Some(i) => i < entries.len(),
            None => true,
        },
{
    let ghost m = entry_views(entries@);
    let mut i: usize = 0;
    while i < entries.len()
        invariant
            i <= entries.len(),
            m == entry_views(entries@),
            key_index(m, k@) == key_index_from(m, k@, i as int),
        decreases entries.len() - i,
    {
        if entries[i].0 == *k {
            return Some(i);
        }
        i = i + 1;
    }
    None
}

impl Tags {
    /// The value stored under `key`.
    pub fn get(&self, key: &str) -> (r: Option<&String>)
        ensures
            match lookup(self@, key@) {
                Some(v) => r is Some && r->Some_0@ == v,
                None => r is None,
            },
    {
        let k = key.to_owned();
        match find_entry(&self.entries, &k) {
            Some(j) => Some(&self.entries[j].1),
            None => None,
        }
    }

    /// How many keys there are.
    pub fn len(&self) -> (r: usize)
        ensures
            r == self@.len(),
    {
        self.entries.len()
    }
}

/// The mapping that `acc` makes.
fn tags_from_pairs(acc: &Vec<(Vec<char>, Vec<char>)>) -> (r: Tags)
    ensures
        r@ == materialize(pair_views(acc@)),
{
    let mut entries: Vec<(String, String)> = Vec::new();
    let mut i: usize = 0;
    while i < acc.len()
        invariant
            i <= acc.len(),
            entry_views(entries@) == materialize(pair_views(acc@).take(i as int)),
        decreases acc.len() - i,
    {
        let ghost before = entry_views(entries@);
        let k = string_from_chars(&acc[i].0);
        let v = string_from_chars(&acc[i].1);
        assert(pair_views(acc@).take(i + 1).drop_last() =~= pair_views(acc@).take(i as int));
        match find_entry(&entries, &k) {
            Some(j) => {
                entries[j] = (k, v);
                assert(entry_views(entries@) =~= before.update(j as int, (k@, v@)));
            },
            None => {
                entries.push((k, v));
                assert(entry_views(entries@) =~= before.push((k@, v@)));
            },
        }
        i = i + 1;
    }
    assert(pair_views(acc@).take(i as int) =~= pair_views(acc@));
    Tags { entries }
}

/// The index of the first `:` in `v`.
fn colon_index(v: &Vec<char>) -> (r: Option<usize>)
    ensures
        opt_int(r) == colon_from(v@, 0),
        match r {
            Some(i) => i < v.len(),
            None => true,
        },
{
    let mut i: usize = 0;
    while i < v.len()
        invariant
            i <= v.len(),
            colon_from(v@, 0) == colon_from(v@, i as int),
        decreases v.len() - i,
    {
        if v[i] == ':' {
            return Some(i);
        }
        i = i + 1;
    }
    None
}

/// Reads one header line into `acc`.
fn fold_line_chars(acc: &mut Vec<(Vec<char>, Vec<char>)>, line: &Vec<char>) -> (r: Result<
    (),
    ErrorKind,
>)
    ensures
        match fold_line(pair_views(old(acc)@), line@) {
            Ok(a) => r is Ok && pair_views(final(acc)@) == a,
            Err(e) => r == Err::<(), ErrorKind>(e),
        },
{
    let ghost a0 = pair_views(acc@);
    let colon = colon_index(line);
    let before = match colon {
        Some(i) => trim_chars(&slice_chars(line, 0, i)),
        None => trim_chars(line),
    };
    assert(before@ == key_part(line@));
    if before.len() >= 2 && before[0] == '-' && before[1] == ' ' {
        if acc.len() == 0 {
            return Err(ErrorKind::DanglingListItem);
        }
        let (k, v) = acc.pop().unwrap();
        let item = slice_chars(&before, 2, before.len());
        assert(item@ == before@.skip(2));
        let nv = if v.len() == 0 {
            item
        } else {
            let mut nv = v;
            nv.push(',');
            nv.push(' ');
            append_chars(&mut nv, &item);
            nv
        };
        assert(nv@ == join_item(v@, item@));
        acc.push((k, nv));
        assert(pair_views(acc@) =~= a0.drop_last().push((a0.last().0, join_item(a0.last().1, item@))));
        Ok(())
    } else {
        match colon {
            Some(i) => {
                let after = trim_chars(&slice_chars(line, i + 1, line.len()));
                assert(line@.subrange(i + 1, line@.len() as int) =~= line@.skip(i + 1));
                acc.push((before, after));
                assert(pair_views(acc@) =~= a0.push((key_part(line@), value_part(line@))));
                Ok(())
            },
            None => Err(ErrorKind::MalformedLine),
        }
    }
}

proof fn lemma_fold_lines_err(lines: Seq<Seq<char>>, i: int)
    requires
        0 <= i <= lines.len(),
        fold_lines(lines.take(i)) is Err,
    ensures
        fold_lines(lines) == fold_lines(lines.take(i)),
    decreases lines.len() - i,
{
    if i < lines.len() {
        assert(lines.take(i + 1).drop_last() =~= lines.take(i));
        lemma_fold_lines_err(lines, i + 1);
    } else {
        assert(lines.take(i) =~= lines);
    }
}

/// Reads the header of a document: the text between a `---` at its very start and the next
/// `---`, one `key: value` per line, with `- item` lines joined by `", "` onto the value of
/// the line before. A key written twice keeps its last value.
pub fn get_tags(contents: &str) -> (r: Result<Tags, ErrorKind>)
    ensures
        match parse_front_matter(contents@) {
            Ok(m) => r is Ok && r->Ok_0@ == m,
            Err(e) => r == Err::<Tags, ErrorKind>(e),
        },
        r is Ok ==> unique_keys(r->Ok_0@),
{
    let text = chars_of(contents);
    if !(text.len() >= 3 && text[0] == '-' && text[1] == '-' && text[2] == '-') {
        return Err(ErrorKind::MissingLeadingDelimiter);
    }
    let end = match find_delim_chars(&text, 3) {
        Some(e) => e,
        None => {
            return Err(ErrorKind::MissingTrailingDelimiter);
        },
    };
    proof {
        crate::text::lemma_find_delim_bounds(text@, 3);
    }
    let header = trim_chars(&slice_chars(&text, 3, end));
    let mut acc: Vec<(Vec<char>, Vec<char>)> = Vec::new();
    let ghost lines_v: Seq<Seq<char>> = header_lines(text@.subrange(3, end as int));
    assert(is_delim_at(contents@, 0));
    assert(raw_pairs(contents@) == fold_lines(lines_v));
    if header.len() > 0 {
        let lines = split_lines_chars(&header);
        assert(views(lines@) == lines_v);
        let mut i: usize = 0;
        assert(lines_v.take(0) =~= Seq::<Seq<char>>::empty());
        assert(pair_views(acc@) =~= Seq::<Pair>::empty());
        while i < lines.len()
            invariant
                i <= lines.len(),
                views(lines@) == lines_v,
                raw_pairs(contents@) == fold_lines(lines_v),
                fold_lines(lines_v.take(i as int)) == Ok::<Seq<Pair>, ErrorKind>(
                    pair_views(acc@),
                ),
            decreases lines.len() - i,
        {
            assert(lines_v.take(i + 1).drop_last() =~= lines_v.take(i as int));
            assert(lines_v.take(i + 1).last() == lines[i as int]@);
            match fold_line_chars(&mut acc, &lines[i]) {
                Ok(()) => {},
                Err(e) => {
                    proof {
                        assert(fold_lines(lines_v.take(i + 1)) == Err::<Seq<Pair>, ErrorKind>(e));
                        lemma_fold_lines_err(lines_v, i + 1);
                    }
                    return Err(e);
                },
            }
            i = i + 1;
        }
        assert(lines_v.take(i as int) =~= lines_v);
    }
    let tags = tags_from_pairs(&acc);
    proof {
        lemma_materialize(pair_views(acc@), Seq::empty());
    }
    Ok(tags)
}

} // verus!
