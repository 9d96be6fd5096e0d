use vstd::prelude::*;

use crate::collections::name_list;
use crate::front_matter::{
    colon_from, fold_line, fold_lines, header_lines, is_list_item, join_item, last_value,
    lemma_materialize, lookup, materialize, parse_front_matter, raw_pairs, ErrorKind, Pair,
    header_end,
};
use crate::template::{
    created_key, join_lines, member_line, parse_collection, poems_key, remove_header_span, render,
    title_key, CollectionView,
};
use crate::text::{
    ends_with_comma_space, find_delim, is_delim_at, is_ws, last_delim, lemma_split_comma_space_len,
    lemma_split_lines_len, split_comma_space, split_lines, trim, trim_end, trim_start,
};

verus! {

/// `s` holds no `---`.
pub open spec fn no_delim(s: Seq<char>) -> bool {
    forall|k: int| !is_delim_at(s, k)
}

/// `s` holds `", "`.
pub open spec fn has_comma_space(s: Seq<char>) -> bool {
    exists|i: int| 0 <= i < s.len() - 1 && #[trigger] s[i] == ',' && s[i + 1] == ' '
}

proof fn lemma_no_delim_join(a: Seq<char>, c: char, b: Seq<char>)
    requires
        no_delim(a),
        no_delim(b),
        c != '-',
    ensures
        no_delim(a + seq![c] + b),
{
    let s = a + seq![c] + b;
    assert forall|k: int| !is_delim_at(s, k) by {
        if is_delim_at(s, k) {
            if k + 3 <= a.len() {
                assert(is_delim_at(a, k));
            } else if k >= a.len() + 1 {
                assert(is_delim_at(b, k - a.len() - 1));
            } else {
                assert(s[a.len() as int] == c);
            }
        }
    }
}

proof fn lemma_find_delim_first(s: Seq<char>, from: int, j: int)
    requires
        0 <= from <= j,
        is_delim_at(s, j),
        forall|k: int| from <= k < j ==> !is_delim_at(s, k),
    ensures
        find_delim(s, from) == Some(j),
    decreases j - from,
{
    if from < j {
        lemma_find_delim_first(s, from + 1, j);
    }
}

proof fn lemma_last_delim_is(s: Seq<char>, lo: int, hi: int, j: int)
    requires
        lo <= j <= hi,
        is_delim_at(s, j),
        forall|k: int| j < k <= hi ==> !is_delim_at(s, k),
    ensures
        last_delim(s, lo, hi) == Some(j),
    decreases hi - j,
{
    if j < hi {
        lemma_last_delim_is(s, lo, hi - 1, j);
    }
}

proof fn lemma_split_lines_append(s: Seq<char>, b: Seq<char>)
    requires
        !b.contains('\n'),
    ensures
        split_lines(s + b) == split_lines(s).update(
            split_lines(s).len() - 1,
            split_lines(s).last() + b,
        ),
    decreases b.len(),
{
    lemma_split_lines_len(s);
    let r = split_lines(s);
    if b.len() == 0 {
        assert(s + b =~= s);
        assert(r.last() + b =~= r.last());
        assert(r.update(r.len() - 1, r.last() + b) =~= r);
    } else {
        let b0 = b.drop_last();
        assert(!b0.contains('\n')) by {
            if b0.contains('\n') {
                let i = choose|i: int| 0 <= i < b0.len() && b0[i] == '\n';
                assert(b[i] == '\n');
            }
        }
        lemma_split_lines_append(s, b0);
        assert((s + b).drop_last() =~= s + b0);
        assert(b.last() != '\n') by {
            assert(b[b.len() - 1] == b.last());
        }
        assert((s + b).last() == b.last());
        assert((r.last() + b0).push(b.last()) =~= r.last() + b);
        assert(r.update(r.len() - 1, r.last() + b0).update(r.len() - 1, (r.last() + b0).push(
            b.last(),
        )) =~= r.update(r.len() - 1, r.last() + b));
    }
}

proof fn lemma_split_join_lines(ls: Seq<Seq<char>>)
    requires
        ls.len() >= 1,
        forall|i: int| 0 <= i < ls.len() ==> !(#[trigger] ls[i]).contains('\n'),
    ensures
        split_lines(join_lines(ls)) == ls,
    decreases ls.len(),
{
    if ls.len() == 1 {
        lemma_split_lines_append(Seq::empty(), ls[0]);
        assert(Seq::<char>::empty() + ls[0] =~= ls[0]);
        assert(split_lines(Seq::<char>::empty()) == seq![Seq::<char>::empty()]);
        assert(Seq::<char>::empty() + ls[0] =~= ls[0]);
        assert(seq![Seq::<char>::empty()].update(0, Seq::<char>::empty() + ls[0]) =~= ls);
    } else {
        let front = ls.drop_last();
        assert forall|i: int| 0 <= i < front.len() implies !(#[trigger] front[i]).contains('\n') by {
            assert(front[i] == ls[i]);
        }
        lemma_split_join_lines(front);
        let x = join_lines(front);
        let xn = x + seq!['\n'];
        assert(xn.drop_last() =~= x);
        assert(split_lines(xn) == split_lines(x).push(Seq::empty()));
        assert(!ls.last().contains('\n')) by {
            assert(ls[ls.len() - 1] == ls.last());
        }
        lemma_split_lines_append(xn, ls.last());
        assert(join_lines(ls) == xn + ls.last());
        assert(Seq::<char>::empty() + ls.last() =~= ls.last());
        assert(front.push(Seq::empty()).update(front.len() as int, Seq::<char>::empty() + ls.last())
            =~= ls);
    }
}

/// The items joined by `", "`, as list folding builds them.
pub open spec fn join_items(ms: Seq<Seq<char>>) -> Seq<char>
    decreases ms.len(),
{
    if ms.len() == 0 {
        Seq::empty()
    } else {
        join_item(join_items(ms.drop_last()), ms.last())
    }
}

proof fn lemma_split_comma_space_append(x: Seq<char>, b: Seq<char>)
    requires
        !has_comma_space(b),
        !(x.len() > 0 && x.last() == ',' && b.len() > 0 && b[0] == ' '),
    ensures
        split_comma_space(x + b) == split_comma_space(x).update(
            split_comma_space(x).len() - 1,
            split_comma_space(x).last() + b,
        ),
    decreases b.len(),
{
    lemma_split_comma_space_len(x);
    let r = split_comma_space(x);
    if b.len() == 0 {
        assert(x + b =~= x);
        assert(r.last() + b =~= r.last());
        assert(r.update(r.len() - 1, r.last() + b) =~= r);
    } else {
        let b0 = b.drop_last();
        assert(!has_comma_space(b0)) by {
            if has_comma_space(b0) {
                let i = choose|i: int| 0 <= i < b0.len() - 1 && #[trigger] b0[i] == ',' && b0[i + 1]
                    == ' ';
                assert(b[i] == ',' && b[i + 1] == ' ');
            }
        }
        lemma_split_comma_space_append(x, b0);
        let xb = x + b;
        assert(xb.drop_last() =~= x + b0);
        assert(!ends_with_comma_space(xb)) by {
            if ends_with_comma_space(xb) {
                if b.len() >= 2 {
                    assert(b[b.len() - 2] == ',' && b[b.len() - 1] == ' ');
                } else {
                    assert(xb[xb.len() - 2] == x.last());
                    assert(xb[xb.len() - 1] == b[0]);
                }
            }
        }
        assert(xb.last() == b.last());
        assert((r.last() + b0).push(b.last()) =~= r.last() + b);
        assert(r.update(r.len() - 1, r.last() + b0).update(r.len() - 1, (r.last() + b0).push(
            b.last(),
        )) =~= r.update(r.len() - 1, r.last() + b));
    }
}

proof fn lemma_split_join_items(ms: Seq<Seq<char>>)
    requires
        ms.len() >= 1,
        forall|i: int| 0 <= i < ms.len() ==> (#[trigger] ms[i]).len() > 0 && !has_comma_space(
            ms[i],
        ),
    ensures
        split_comma_space(join_items(ms)) == ms,
        join_items(ms).len() > 0,
    decreases ms.len(),
{
    let m = ms.last();
    assert(m == ms[ms.len() - 1]);
    if ms.len() == 1 {
        assert(join_items(ms.drop_last()) == Seq::<char>::empty());
        assert(join_items(ms) == m);
        lemma_split_comma_space_append(Seq::empty(), m);
        assert(Seq::<char>::empty() + m =~= m);
        assert(seq![Seq::<char>::empty()].update(0, Seq::<char>::empty() + m) =~= ms);
    } else {
        let front = ms.drop_last();
        assert forall|i: int| 0 <= i < front.len() implies (#[trigger] front[i]).len() > 0
            && !has_comma_space(front[i]) by {
            assert(front[i] == ms[i]);
        }
        lemma_split_join_items(front);
        let x = join_items(front);
        let xs = x + seq![',', ' '];
        assert(ends_with_comma_space(xs));
        assert(xs.subrange(0, xs.len() - 2) =~= x);
        assert(split_comma_space(xs) == split_comma_space(x).push(Seq::empty()));
        lemma_split_comma_space_append(xs, m);
        assert(join_items(ms) == xs + m);
        assert(Seq::<char>::empty() + m =~= m);
        assert(front.push(Seq::empty()).update(front.len() as int, Seq::<char>::empty() + m) =~= ms);
    }
}

proof fn lemma_trim_id(s: Seq<char>)
    requires
        s.len() == 0 || (!is_ws(s[0]) && !is_ws(s.last())),
    ensures
        trim(s) == s,
{
}

proof fn lemma_trim_lens(s: Seq<char>)
    ensures
        trim_start(s).len() <= s.len(),
        trim_end(s).len() <= s.len(),
    decreases s.len(),
{
    if s.len() > 0 {
        lemma_trim_lens(s.drop_first());
        lemma_trim_lens(s.drop_last());
    }
}

proof fn lemma_trimmed_ends(s: Seq<char>)
    requires
        trim(s) == s,
        s.len() > 0,
    ensures
        !is_ws(s[0]),
        !is_ws(s.last()),
{
    lemma_trim_lens(s);
    lemma_trim_lens(s.drop_first());
    lemma_trim_lens(trim_start(s));
    lemma_trim_lens(s.drop_last());
    if is_ws(s[0]) {
        lemma_trim_lens(trim_start(s.drop_first()));
    }
}

proof fn lemma_colon_from(s: Seq<char>, from: int, i: int)
    requires
        0 <= from <= i < s.len(),
        s[i] == ':',
        forall|j: int| from <= j < i ==> s[j] != ':',
    ensures
        colon_from(s, from) == Some(i),
    decreases i - from,
{
    if from < i {
        lemma_colon_from(s, from + 1, i);
    }
}

proof fn lemma_no_colon_from(s: Seq<char>, from: int)
    requires
        0 <= from,
        forall|j: int| from <= j < s.len() ==> s[j] != ':',
    ensures
        colon_from(s, from) is None,
    decreases s.len() - from,
{
    if from < s.len() {
        lemma_no_colon_from(s, from + 1);
    }
}

/// A `key: rest` line adds the pair of `key` and `rest` trimmed.
proof fn lemma_fold_key_line(acc: Seq<Pair>, key: Seq<char>, rest: Seq<char>)
    requires
        key.len() >= 1,
        !key.contains(':'),
        trim(key) == key,
        !is_list_item(key),
    ensures
        fold_line(acc, key + seq![':'] + rest) == Ok::<Seq<Pair>, ErrorKind>(
            acc.push((key, trim(rest))),
        ),
{
    let line = key + seq![':'] + rest;
    assert forall|j: int| 0 <= j < key.len() implies line[j] != ':' by {
        assert(line[j] == key[j]);
    }
    lemma_colon_from(line, 0, key.len() as int);
    assert(line.take(key.len() as int) =~= key);
    assert(line.skip(key.len() as int + 1) =~= rest);
}

/// A `- m` line appends `m` to the value of the last pair.
proof fn lemma_fold_member_line(acc: Seq<Pair>, m: Seq<char>)
    requires
        acc.len() > 0,
        m.len() > 0,
        !is_ws(m.last()),
        !m.contains(':'),
    ensures
        fold_line(acc, member_line(m)) == Ok::<Seq<Pair>, ErrorKind>(
            acc.drop_last().push((acc.last().0, join_item(acc.last().1, m))),
        ),
{
    let line = member_line(m);
    assert forall|j: int| 0 <= j < line.len() implies line[j] != ':' by {
        if j >= 2 {
            assert(line[j] == m[j - 2]);
        }
    }
    lemma_no_colon_from(line, 0);
    assert(line.last() == m.last());
    lemma_trim_id(line);
    assert(line.skip(2) =~= m);
}

pub open spec fn title_line(t: Seq<char>) -> Seq<char> {
    title_key() + seq![':'] + (seq![' '] + t)
}

pub open spec fn created_line(c: Seq<char>) -> Seq<char> {
    created_key() + seq![':'] + (seq![' '] + c)
}

pub open spec fn poems_line() -> Seq<char> {
    poems_key() + seq![':'] + Seq::<char>::empty()
}

/// The header lines of a rendered collection.
pub open spec fn header_of(r: CollectionView) -> Seq<Seq<char>> {
    seq![title_line(r.title), created_line(r.created), poems_line()] + r.poems.map_values(
        |p: Seq<char>| member_line(p),
    )
}

/// A title or date that reads back as written: no surrounding whitespace, no line break,
/// no delimiter.
pub open spec fn field_ok(s: Seq<char>) -> bool {
    trim(s) == s && !s.contains('\n') && no_delim(s)
}

/// A member name that reads back as written: not empty, no trailing whitespace, and none of
/// `:`, a line break, `", "` or the delimiter.
pub open spec fn member_ok(m: Seq<char>) -> bool {
    m.len() > 0 && !is_ws(m.last()) && !m.contains(':') && !m.contains('\n') && !has_comma_space(
        m,
    ) && no_delim(m)
}

/// A record that `render` and `parse_collection` carry through unchanged.
pub open spec fn renders_faithfully(r: CollectionView) -> bool {
    &&& r.poems.len() > 0
    &&& !is_ws(r.poems[0][0])
    &&& forall|i: int| 0 <= i < r.poems.len() ==> member_ok(#[trigger] r.poems[i])
    &&& field_ok(r.title)
    &&& field_ok(r.created)
    &&& trim(r.desc) == r.desc
    &&& no_delim(r.desc)
}

proof fn lemma_trim_ws_space(t: Seq<char>)
    requires
        trim(t) == t,
    ensures
        trim(seq![' '] + t) == t,
{
    let s = seq![' '] + t;
    assert(s.drop_first() =~= t);
    assert(trim_start(s) == trim_start(t));
    if t.len() > 0 {
        lemma_trimmed_ends(t);
    }
}

proof fn lemma_fold_header(r: CollectionView, k: int)
    requires
        renders_faithfully(r),
        0 <= k <= r.poems.len(),
    ensures
        fold_lines(header_of(r).take(3 + k)) == Ok::<Seq<Pair>, ErrorKind>(
            seq![
                (title_key(), r.title),
                (created_key(), r.created),
                (poems_key(), join_items(r.poems.take(k))),
            ],
        ),
    decreases k,
{
    let h = header_of(r);
    if k == 0 {
        assert(title_key().contains(':') == false) by {
            assert(forall|j: int| 0 <= j < title_key().len() ==> title_key()[j] != ':');
        }
        assert(!created_key().contains(':')) by {
            assert(forall|j: int| 0 <= j < created_key().len() ==> created_key()[j] != ':');
        }
        assert(!poems_key().contains(':')) by {
            assert(forall|j: int| 0 <= j < poems_key().len() ==> poems_key()[j] != ':');
        }
        lemma_trim_id(title_key());
        lemma_trim_id(created_key());
        lemma_trim_id(poems_key());
        lemma_trim_ws_space(r.title);
        lemma_trim_ws_space(r.created);
        assert(trim(Seq::<char>::empty()) == Seq::<char>::empty());
        let e = Seq::<Pair>::empty();
        lemma_fold_key_line(e, title_key(), seq![' '] + r.title);
        lemma_fold_key_line(e.push((title_key(), r.title)), created_key(), seq![' '] + r.created);
        lemma_fold_key_line(
            e.push((title_key(), r.title)).push((created_key(), r.created)),
            poems_key(),
            Seq::empty(),
        );
        assert(h.take(1).drop_last() =~= Seq::<Seq<char>>::empty());
        assert(h.take(2).drop_last() =~= h.take(1));
        assert(h.take(3).drop_last() =~= h.take(2));
        assert(h.take(1).last() == title_line(r.title));
        assert(h.take(2).last() == created_line(r.created));
        assert(h.take(3).last() == poems_line());
        assert(fold_lines(Seq::<Seq<char>>::empty()) == Ok::<Seq<Pair>, ErrorKind>(e));
        assert(e.push((title_key(), r.title)) =~= seq![(title_key(), r.title)]);
        assert(fold_lines(h.take(1)) == Ok::<Seq<Pair>, ErrorKind>(seq![(title_key(), r.title)]));
        assert(e.push((title_key(), r.title)).push((created_key(), r.created)) =~= seq![
            (title_key(), r.title),
            (created_key(), r.created),
        ]);
        assert(fold_lines(h.take(2)) == Ok::<Seq<Pair>, ErrorKind>(
            seq![(title_key(), r.title), (created_key(), r.created)],
        ));
        assert(r.poems.take(0) =~= Seq::<Seq<char>>::empty());
        assert(e.push((title_key(), r.title)).push((created_key(), r.created)).push(
            (poems_key(), Seq::empty()),
        ) =~= seq![
            (title_key(), r.title),
            (created_key(), r.created),
            (poems_key(), join_items(r.poems.take(0))),
        ]);
    } else {
        lemma_fold_header(r, k - 1);
        let m = r.poems[k - 1];
        assert(member_ok(m));
        assert(h.take(3 + k).drop_last() =~= h.take(3 + k - 1));
        assert(h.take(3 + k).last() == member_line(m));
        let acc = seq![
            (title_key(), r.title),
            (created_key(), r.created),
            (poems_key(), join_items(r.poems.take(k - 1))),
        ];
        lemma_fold_member_line(acc, m);
        assert(r.poems.take(k).drop_last() =~= r.poems.take(k - 1));
        assert(r.poems.take(k).last() == m);
        assert(acc.drop_last().push((acc.last().0, join_item(acc.last().1, m))) =~= seq![
            (title_key(), r.title),
            (created_key(), r.created),
            (poems_key(), join_items(r.poems.take(k))),
        ]);
    }
}

proof fn lemma_no_char_concat(a: Seq<char>, b: Seq<char>, c: char)
    requires
        !a.contains(c),
        !b.contains(c),
    ensures
        !(a + b).contains(c),
{
    if (a + b).contains(c) {
        let i = choose|i: int| 0 <= i < (a + b).len() && (a + b)[i] == c;
        if i < a.len() {
            assert(a[i] == c);
        } else {
            assert(b[i - a.len()] == c);
        }
    }
}

proof fn lemma_no_delim_literal(s: Seq<char>)
    requires
        !s.contains('-'),
    ensures
        no_delim(s),
{
    assert forall|k: int| !is_delim_at(s, k) by {
        if is_delim_at(s, k) {
            assert(s[k] == '-');
        }
    }
}

proof fn lemma_key_line_clean(key: Seq<char>, v: Seq<char>)
    requires
        !key.contains('\n'),
        !key.contains('-'),
        field_ok(v),
    ensures
        !(key + seq![':'] + (seq![' '] + v)).contains('\n'),
        no_delim(key + seq![':'] + (seq![' '] + v)),
{
    let kc = key + seq![':'];
    assert(!seq![':'].contains('\n') && !seq![':'].contains('-')) by {
        assert(seq![':'][0] == ':');
    }
    assert(!seq![' '].contains('\n')) by {
        assert(seq![' '][0] == ' ');
    }
    lemma_no_char_concat(key, seq![':'], '\n');
    lemma_no_char_concat(key, seq![':'], '-');
    lemma_no_char_concat(seq![' '], v, '\n');
    lemma_no_char_concat(kc, seq![' '] + v, '\n');
    lemma_no_delim_literal(kc);
    lemma_no_delim_join(kc, ' ', v);
    assert(kc + seq![' '] + v =~= kc + (seq![' '] + v));
}

proof fn lemma_header_lines_clean(r: CollectionView)
    requires
        renders_faithfully(r),
    ensures
        forall|i: int|
            0 <= i < header_of(r).len() ==> !(#[trigger] header_of(r)[i]).contains('\n') && no_delim(
                header_of(r)[i],
            ),
{
    let hl = header_of(r);
    assert(!title_key().contains('\n') && !title_key().contains('-')) by {
        assert(forall|j: int| 0 <= j < title_key().len() ==> title_key()[j] != '\n' && title_key()[j] != '-');
    }
    assert(!created_key().contains('\n') && !created_key().contains('-')) by {
        assert(forall|j: int| 0 <= j < created_key().len() ==> created_key()[j] != '\n' && created_key()[j] != '-');
    }
    assert(!poems_line().contains('\n') && !poems_line().contains('-')) by {
        assert(forall|j: int| 0 <= j < poems_line().len() ==> poems_line()[j] != '\n' && poems_line()[j] != '-');
    }
    lemma_key_line_clean(title_key(), r.title);
    lemma_key_line_clean(created_key(), r.created);
    lemma_no_delim_literal(poems_line());
    assert forall|i: int| 0 <= i < hl.len() implies !(#[trigger] hl[i]).contains('\n') && no_delim(
        hl[i],
    ) by {
        if i >= 3 {
            let m = r.poems[i - 3];
            assert(member_ok(m));
            assert(hl[i] == member_line(m));
            assert(!seq!['-', ' '].contains('\n')) by {
                assert(seq!['-', ' '][0] == '-' && seq!['-', ' '][1] == ' ');
            }
            lemma_no_char_concat(seq!['-', ' '], m, '\n');
            assert(no_delim(seq!['-'])) by {
                assert forall|k: int| !is_delim_at(seq!['-'], k) by {}
            }
            lemma_no_delim_join(seq!['-'], ' ', m);
            assert(seq!['-'] + seq![' '] + m =~= member_line(m));
        }
    }
}

proof fn lemma_no_delim_join_lines(ls: Seq<Seq<char>>)
    requires
        forall|i: int| 0 <= i < ls.len() ==> no_delim(#[trigger] ls[i]),
    ensures
        no_delim(join_lines(ls)),
    decreases ls.len(),
{
    if ls.len() == 0 {
        assert forall|k: int| !is_delim_at(join_lines(ls), k) by {}
    } else if ls.len() == 1 {
        assert(no_delim(ls[0]));
    } else {
        let front = ls.drop_last();
        assert forall|i: int| 0 <= i < front.len() implies no_delim(#[trigger] front[i]) by {
            assert(front[i] == ls[i]);
        }
        lemma_no_delim_join_lines(front);
        assert(no_delim(ls[ls.len() - 1]));
        lemma_no_delim_join(join_lines(front), '\n', ls.last());
    }
}

proof fn lemma_join_lines_concat(a: Seq<Seq<char>>, b: Seq<Seq<char>>)
    requires
        a.len() > 0,
        b.len() > 0,
    ensures
        join_lines(a + b) == join_lines(a) + seq!['\n'] + join_lines(b),
    decreases b.len(),
{
    assert((a + b).drop_last() =~= a + b.drop_last());
    assert((a + b).last() == b.last());
    if b.len() == 1 {
        assert(a + b.drop_last() =~= a);
    } else {
        lemma_join_lines_concat(a, b.drop_last());
        assert(join_lines(a) + seq!['\n'] + join_lines(b.drop_last()) + seq!['\n'] + b.last()
            =~= join_lines(a) + seq!['\n'] + (join_lines(b.drop_last()) + seq!['\n'] + b.last()));
    }
}

proof fn lemma_join_lines_last(ls: Seq<Seq<char>>)
    requires
        ls.len() > 0,
        ls.last().len() > 0,
    ensures
        join_lines(ls).len() > 0,
        join_lines(ls).last() == ls.last().last(),
{
}

proof fn lemma_join_items_ends(ms: Seq<Seq<char>>)
    requires
        ms.len() > 0,
        forall|i: int| 0 <= i < ms.len() ==> (#[trigger] ms[i]).len() > 0,
    ensures
        join_items(ms).len() > 0,
        join_items(ms)[0] == ms[0][0],
        join_items(ms).last() == ms.last().last(),
    decreases ms.len(),
{
    assert(ms[ms.len() - 1] == ms.last());
    if ms.len() == 1 {
        assert(join_items(ms.drop_last()) == Seq::<char>::empty());
        assert(join_items(ms) == ms[0]);
    } else {
        let front = ms.drop_last();
        assert forall|i: int| 0 <= i < front.len() implies (#[trigger] front[i]).len() > 0 by {
            assert(front[i] == ms[i]);
        }
        lemma_join_items_ends(front);
        assert(front[0] == ms[0]);
        assert(join_items(ms) == join_items(front) + seq![',', ' '] + ms.last());
    }
}


/// The header lines joined.
pub open spec fn header_text(r: CollectionView) -> Seq<char> {
    join_lines(header_of(r))
}

/// What stands between the two delimiters of a rendered record.
pub open spec fn region_of(r: CollectionView) -> Seq<char> {
    seq!['\n'] + header_text(r) + seq!['\n']
}

/// What follows the closing delimiter of a rendered record.
pub open spec fn tail_of(r: CollectionView) -> Seq<char> {
    seq!['\n', '\n'] + r.desc + seq!['\n']
}

proof fn lemma_render_shape(r: CollectionView)
    requires
        renders_faithfully(r),
    ensures
        render(r) == seq!['-', '-', '-'] + region_of(r) + seq!['-', '-', '-'] + tail_of(r),
        header_text(r).len() > 0,
        header_text(r)[0] == 't',
        header_text(r).last() == r.poems.last().last(),
{
    let t = r.title;
    let c = r.created;
    let p = r.poems;
    let hl = header_of(r);
    let ml = p.map_values(|q: Seq<char>| member_line(q));
    let base = seq![title_line(t), created_line(c), poems_line()];
    let base2 = seq![title_line(t), created_line(c)];
    let base1 = seq![title_line(t)];
    assert(hl == base + ml);
    lemma_join_lines_concat(base, ml);
    assert(base.drop_last() =~= base2);
    assert(base2.drop_last() =~= base1);
    assert(join_lines(base1) == title_line(t));
    assert(join_lines(base2) == title_line(t) + seq!['\n'] + created_line(c));
    assert(join_lines(base) == title_line(t) + seq!['\n'] + created_line(c) + seq!['\n']
        + poems_line());
    let h = header_text(r);
    assert(h == join_lines(base) + seq!['\n'] + join_lines(ml));
    assert(render(r) =~= seq!['-', '-', '-'] + region_of(r) + seq!['-', '-', '-'] + tail_of(r));
    assert(member_ok(p[p.len() - 1]));
    assert(ml.last() == member_line(p.last()));
    lemma_join_lines_last(ml);
    assert(h[0] == title_line(t)[0]);
}

proof fn lemma_header_region(r: CollectionView)
    requires
        renders_faithfully(r),
    ensures
        header_end(render(r)) == Some(3 + region_of(r).len() as int),
        render(r).subrange(3, 3 + region_of(r).len() as int) == region_of(r),
        header_lines(region_of(r)) == header_of(r),
{
    let text = render(r);
    let hl = header_of(r);
    let h = header_text(r);
    let region = region_of(r);
    lemma_render_shape(r);
    lemma_header_lines_clean(r);
    let e: int = 3 + region.len() as int;
    lemma_no_delim_join_lines(hl);
    lemma_no_delim_join(Seq::empty(), '\n', h);
    assert(Seq::<char>::empty() + seq!['\n'] + h =~= seq!['\n'] + h);
    lemma_no_delim_join(seq!['\n'] + h, '\n', Seq::empty());
    assert(seq!['\n'] + h + seq!['\n'] + Seq::<char>::empty() =~= region);
    assert forall|k: int| 3 <= k < e implies !is_delim_at(text, k) by {
        if is_delim_at(text, k) {
            if k + 3 <= e {
                assert(text[k] == region[k - 3]);
                assert(text[k + 1] == region[k - 2]);
                assert(text[k + 2] == region[k - 1]);
                assert(is_delim_at(region, k - 3));
            } else {
                assert(text[e - 1] == '\n');
            }
        }
    }
    assert(is_delim_at(text, e));
    lemma_find_delim_first(text, 3, e);
    assert(text.subrange(3, e) =~= region);
    crate::text::lemma_trim_start_skip(region, 1);
    assert(region.subrange(1, region.len() as int) =~= h + seq!['\n']);
    assert(trim_start(h + seq!['\n']) == h + seq!['\n']);
    crate::text::lemma_trim_end_cut(h + seq!['\n'], h.len() as int);
    assert((h + seq!['\n']).subrange(0, h.len() as int) =~= h);
    assert(trim(region) == h);
    lemma_split_join_lines(hl);
}

proof fn lemma_description(r: CollectionView)
    requires
        renders_faithfully(r),
    ensures
        trim(remove_header_span(render(r))) == r.desc,
{
    let text = render(r);
    let d = r.desc;
    let tail = tail_of(r);
    let region = region_of(r);
    lemma_render_shape(r);
    let e: int = 3 + region.len() as int;
    lemma_find_delim_first(text, 0, 0);
    lemma_no_delim_join(seq!['\n'], '\n', d);
    lemma_no_delim_join(seq!['\n'] + seq!['\n'] + d, '\n', Seq::empty());
    assert(seq!['\n'] + seq!['\n'] + d + seq!['\n'] + Seq::<char>::empty() =~= tail);
    assert(no_delim(tail));
    assert forall|k: int| e < k <= text.len() - 3 implies !is_delim_at(text, k) by {
        if is_delim_at(text, k) {
            if k <= e + 2 {
                assert(text[e + 3] == '\n');
            } else {
                assert(text[k] == tail[k - e - 3]);
                assert(text[k + 1] == tail[k - e - 2]);
                assert(text[k + 2] == tail[k - e - 1]);
                assert(is_delim_at(tail, k - e - 3));
            }
        }
    }
    assert(is_delim_at(text, e));
    lemma_last_delim_is(text, 3, text.len() - 3, e);
    assert(text.take(0) + text.skip(e + 3) =~= tail);
    assert(remove_header_span(text) == tail);
    crate::text::lemma_trim_start_skip(tail, 2);
    let dn = d + seq!['\n'];
    assert(tail.subrange(2, tail.len() as int) =~= dn);
    if d.len() == 0 {
        crate::text::lemma_trim_start_skip(dn, 1);
        assert(dn.subrange(1, dn.len() as int) =~= Seq::<char>::empty());
    } else {
        lemma_trimmed_ends(d);
        assert(trim_start(dn) == dn);
        crate::text::lemma_trim_end_cut(dn, d.len() as int);
        assert(dn.subrange(0, d.len() as int) =~= d);
    }
}

proof fn lemma_header_pairs(r: CollectionView)
    requires
        renders_faithfully(r),
    ensures
        parse_front_matter(render(r)) == Ok::<Seq<Pair>, ErrorKind>(
            materialize(
                seq![(title_key(), r.title), (created_key(), r.created), (poems_key(), join_items(r.poems))],
            ),
        ),
{
    let hl = header_of(r);
    let p = r.poems;
    lemma_header_region(r);
    lemma_fold_header(r, p.len() as int);
    assert(hl.take(3 + p.len() as int) =~= hl);
    assert(p.take(p.len() as int) =~= p);
}

proof fn lemma_header_lookups(t: Seq<char>, c: Seq<char>, j: Seq<char>)
    ensures
        lookup(materialize(seq![(title_key(), t), (created_key(), c), (poems_key(), j)]), title_key())
            == Some(t),
        lookup(materialize(seq![(title_key(), t), (created_key(), c), (poems_key(), j)]), created_key())
            == Some(c),
        lookup(materialize(seq![(title_key(), t), (created_key(), c), (poems_key(), j)]), poems_key())
            == Some(j),
{
    let pairs = seq![(title_key(), t), (created_key(), c), (poems_key(), j)];
    lemma_materialize(pairs, title_key());
    lemma_materialize(pairs, created_key());
    lemma_materialize(pairs, poems_key());
    assert(title_key()[0] != poems_key()[0]);
    assert(title_key() != created_key());
    assert(created_key() != poems_key());
    let first_two = seq![(title_key(), t), (created_key(), c)];
    let first_one = seq![(title_key(), t)];
    assert(pairs.drop_last() =~= first_two);
    assert(first_two.drop_last() =~= first_one);
    assert(last_value(first_one, title_key()) == Some(t));
    assert(last_value(first_two, title_key()) == Some(t));
    assert(last_value(first_two, created_key()) == Some(c));
}

/// Writing a collection record and reading the text back gives the same record, for every
/// record whose fields survive the format: members present and each a clean name, title and
/// date on one line without surrounding whitespace, and no `---` anywhere.
pub proof fn lemma_round_trip(r: CollectionView)
    requires
        renders_faithfully(r),
    ensures
        parse_collection(render(r)) == Ok::<CollectionView, ErrorKind>(r),
{
    let p = r.poems;
    lemma_header_pairs(r);
    lemma_header_lookups(r.title, r.created, join_items(p));
    assert forall|i: int| 0 <= i < p.len() implies (#[trigger] p[i]).len() > 0
        && !has_comma_space(p[i]) by {
        assert(member_ok(p[i]));
    }
    lemma_join_items_ends(p);
    assert(member_ok(p[p.len() - 1]));
    lemma_trim_id(join_items(p));
    lemma_split_join_items(p);
    lemma_description(r);
}

} // verus!
