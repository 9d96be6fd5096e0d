use vstd::prelude::*;

use crate::front_matter::{
    key_index, lemma_key_index, lemma_key_index_absent, lemma_key_index_is, lookup, unique_keys,
    Tags,
};
use crate::text::{
    chars_of, opt_int, split_comma_space, split_comma_space_chars, string_from_chars, trim,
    trim_chars,
};

verus! {

/// The views of a sequence of strings.
pub open spec fn str_views(v: Seq<String>) -> Seq<Seq<char>> {
    v.map_values(|s: String| s@)
}

/// `publish`
pub open spec fn publish_key() -> Seq<char> {
    seq!['p', 'u', 'b', 'l', 'i', 's', 'h']
}

/// `true`
pub open spec fn true_word() -> Seq<char> {
    seq!['t', 'r', 'u', 'e']
}

/// A document is published when its `publish` key holds exactly `true`.
pub open spec fn published(m: Seq<(Seq<char>, Seq<char>)>) -> bool {
    lookup(m, publish_key()) == Some(true_word())
}

/// Whether the header says `publish: true`; any other value, or none, means no.
pub fn is_published(tags: &Tags) -> (r: bool)
    ensures
        r == published(tags@),
{
    proof {
        reveal_strlit("publish");
    }
    assert("publish"@ =~= publish_key());
    match tags.get("publish") {
        Some(v) => {
            let t = chars_of(v.as_str());
            let r = t.len() == 4 && t[0] == 't' && t[1] == 'r' && t[2] == 'u' && t[3] == 'e';
            assert(r ==> t@ =~= true_word());
            r
        },
        None => false,
    }
}

/// The names in a list value: the value trimmed, then cut at every `", "`.
pub open spec fn name_list(raw: Seq<char>) -> Seq<Seq<char>> {
    split_comma_space(trim(raw))
}

/// Strings with the given characters.
fn strings_of(pieces: &Vec<Vec<char>>) -> (r: Vec<String>)
    ensures
        str_views(r@) == crate::text::views(pieces@),
{
    let mut r: Vec<String> = Vec::new();
    let mut i: usize = 0;
    while i < pieces.len()
        invariant
            i <= pieces.len(),
            str_views(r@) == crate::text::views(pieces@).take(i as int),
        decreases pieces.len() - i,
    {
        assert(str_views(r@).len() == r@.len());
        let s = string_from_chars(&pieces[i]);
        r.push(s);
        assert(str_views(r@) =~= crate::text::views(pieces@).take(i + 1));
        i = i + 1;
    }
    assert(crate::text::views(pieces@).take(i as int) =~= crate::text::views(pieces@));
    r
}

/// The collection names in a list value such as `a, b`. A blank value gives one empty name.
pub fn parse_collections(raw: &str) -> (r: Vec<String>)
    ensures
        str_views(r@) == name_list(raw@),
{
    let v = chars_of(raw);
    let t = trim_chars(&v);
    let pieces = split_comma_space_chars(&t);
    strings_of(&pieces)
}

/// Collection name and its members.
pub type IndexEntry = (Seq<char>, Seq<Seq<char>>);

/// `m` with `name` added at the end of the members of `c`; a new collection goes last.
pub open spec fn add_member(m: Seq<IndexEntry>, c: Seq<char>, name: Seq<char>) -> Seq<IndexEntry> {
    match key_index(m, c) {
        Some(i) => m.update(i, (c, m[i].1.push(name))),
        None => m.push((c, seq![name])),
    }
}

/// `m` with `name` added to each of `cols`, in order.
pub open spec fn aggregated(m: Seq<IndexEntry>, name: Seq<char>, cols: Seq<Seq<char>>) -> Seq<
    IndexEntry,
>
    decreases cols.len(),
{
    if cols.len() == 0 {
        m
    } else {
        add_member(aggregated(m, name, cols.drop_last()), cols.last(), name)
    }
}

/// The members of `c` in `m`; none when `c` is absent.
pub open spec fn members_of(m: Seq<IndexEntry>, c: Seq<char>) -> Seq<Seq<char>> {
    match lookup(m, c) {
        Some(v) => v,
        None => Seq::empty(),
    }
}

/// How many times `c` occurs in `cols`.
pub open spec fn count_of(cols: Seq<Seq<char>>, c: Seq<char>) -> nat
    decreases cols.len(),
{
    if cols.len() == 0 {
        0
    } else {
        count_of(cols.drop_last(), c) + if cols.last() == c {
            1nat
        } else {
            0nat
        }
    }
}

/// The members that a run of documents gives `c`, in the documents' order.
pub open spec fn tagged_names(docs: Seq<(Seq<char>, Seq<Seq<char>>)>, c: Seq<char>) -> Seq<
    Seq<char>,
>
    decreases docs.len(),
{
    if docs.len() == 0 {
        Seq::empty()
    } else {
        tagged_names(docs.drop_last(), c) + Seq::new(
            count_of(docs.last().1, c),
            |i: int| docs.last().0,
        )
    }
}

/// Each document of `docs`, with its collections, aggregated into `m` in order.
pub open spec fn fold_documents(m: Seq<IndexEntry>, docs: Seq<(Seq<char>, Seq<Seq<char>>)>) -> Seq<
    IndexEntry,
>
    decreases docs.len(),
{
    if docs.len() == 0 {
        m
    } else {
        aggregated(fold_documents(m, docs.drop_last()), docs.last().0, docs.last().1)
    }
}

proof fn lemma_add_member(m: Seq<IndexEntry>, c: Seq<char>, name: Seq<char>, d: Seq<char>)
    requires
        unique_keys(m),
    ensures
        unique_keys(add_member(m, c, name)),
        members_of(add_member(m, c, name), d) == if c == d {
            members_of(m, d).push(name)
        } else {
            members_of(m, d)
        },
        lookup(add_member(m, c, name), d) is Some <==> (lookup(m, d) is Some || c == d),
{
    let u = add_member(m, c, name);
    lemma_key_index(m, c);
    lemma_key_index(m, d);
    match key_index(m, c) {
        Some(i) => {
            assert forall|a: int, b: int| 0 <= a < b < u.len() implies u[a].0 != u[b].0 by {
                assert(u[a].0 == m[a].0);
                assert(u[b].0 == m[b].0);
            }
            if c == d {
                lemma_key_index_is(u, d, i);
            } else {
                match key_index(m, d) {
                    Some(j) => lemma_key_index_is(u, d, j),
                    None => lemma_key_index_absent(u, d),
                }
            }
        },
        None => {
            if c == d {
                lemma_key_index_is(u, d, m.len() as int);
                assert(members_of(m, d) =~= Seq::<Seq<char>>::empty());
                assert(seq![name] =~= members_of(m, d).push(name));
            } else {
                match key_index(m, d) {
                    Some(j) => lemma_key_index_is(u, d, j),
                    None => lemma_key_index_absent(u, d),
                }
            }
        },
    }
}

/// Aggregating a document appends its name to the members of each collection it names, once
/// per mention, after the members already there; other collections keep their members, and
/// the index still holds each collection once.
pub proof fn lemma_aggregate_appends(
    m: Seq<IndexEntry>,
    name: Seq<char>,
    cols: Seq<Seq<char>>,
    c: Seq<char>,
)
    requires
        unique_keys(m),
    ensures
        unique_keys(aggregated(m, name, cols)),
        members_of(aggregated(m, name, cols), c) == members_of(m, c) + Seq::new(
            count_of(cols, c),
            |i: int| name,
        ),
        lookup(aggregated(m, name, cols), c) is Some <==> (lookup(m, c) is Some || count_of(cols, c)
            > 0),
    decreases cols.len(),
{
    if cols.len() == 0 {
        assert(members_of(m, c) + Seq::new(0, |i: int| name) =~= members_of(m, c));
    } else {
        let prev = aggregated(m, name, cols.drop_last());
        lemma_aggregate_appends(m, name, cols.drop_last(), c);
        lemma_add_member(prev, cols.last(), name, c);
        assert(members_of(m, c) + Seq::new(count_of(cols, c), |i: int| name) =~= if cols.last()
            == c {
            (members_of(m, c) + Seq::new(count_of(cols.drop_last(), c), |i: int| name)).push(name)
        } else {
            members_of(m, c) + Seq::new(count_of(cols.drop_last(), c), |i: int| name)
        });
    }
}

/// Folding documents into an index, one after another, gives each collection the members it
/// had followed by the names of the documents that name it, in the order the documents came.
pub proof fn lemma_fold_documents_order(
    m: Seq<IndexEntry>,
    docs: Seq<(Seq<char>, Seq<Seq<char>>)>,
    c: Seq<char>,
)
    requires
        unique_keys(m),
    ensures
        unique_keys(fold_documents(m, docs)),
        members_of(fold_documents(m, docs), c) == members_of(m, c) + tagged_names(docs, c),
    decreases docs.len(),
{
    if docs.len() == 0 {
        assert(members_of(m, c) + tagged_names(docs, c) =~= members_of(m, c));
    } else {
        lemma_fold_documents_order(m, docs.drop_last(), c);
        lemma_aggregate_appends(fold_documents(m, docs.drop_last()), docs.last().0, docs.last().1, c);
        assert(members_of(m, c) + tagged_names(docs, c) =~= members_of(m, c) + tagged_names(
            docs.drop_last(),
            c,
        ) + Seq::new(count_of(docs.last().1, c), |i: int| docs.last().0));
    }
}

/// Collection index: each collection name with the documents that belong to it, in the order
/// the documents were added. Collections keep the order in which they were first named.
pub struct Aggregate {
    entries: Vec<(String, Vec<String>)>,
}

/// The views of the entries of an index.
pub open spec fn index_views(s: Seq<(String, Vec<String>)>) -> Seq<IndexEntry> {
    s.map_values(|e: (String, Vec<String>)| (e.0@, str_views(e.1@)))
}

impl View for Aggregate {
    type V = Seq<IndexEntry>;

    closed spec fn view(&self) -> Seq<IndexEntry> {
        index_views(self.entries@)
    }
}

/// The index of the entry for collection `c`.
fn find_collection(entries: &Vec<(String, Vec<String>)>, c: &String) -> (r: Option<usize>)
    ensures
        opt_int(r) == key_index(index_views(entries@), c@),
        match r {
            Some(i) => i < entries.len(),
            None => true,
        },
{
    let ghost m = index_views(entries@);
    let mut i: usize = 0;
    while i < entries.len()
        invariant
            i <= entries.len(),
            m == index_views(entries@),
            key_index(m, c@) == crate::front_matter::key_index_from(m, c@, i as int),
        decreases entries.len() - i,
    {
        if entries[i].0 == *c {
            return Some(i);
        }
        i = i + 1;
    }
    None
}

impl Aggregate {
    /// An index with no collections.
    pub fn new() -> (r: Aggregate)
        ensures
            r@ == Seq::<IndexEntry>::empty(),
    {
        let r = Aggregate { entries: Vec::new() };
        assert(r@ =~= Seq::<IndexEntry>::empty());
        r
    }

    /// The members of `collection`.
    pub fn get(&self, collection: &str) -> (r: Option<&Vec<String>>)
        ensures
            match lookup(self@, collection@) {
                Some(v) => r is Some && str_views(r->Some_0@) == v,
                None => r is None,
            },
    {
        let c = collection.to_owned();
        match find_collection(&self.entries, &c) {
            Some(j) => Some(&self.entries[j].1),
            None => None,
        }
    }

    /// The collections with their members, in the order the collections were first named.
    pub fn entries(&self) -> (r: &Vec<(String, Vec<String>)>)
        ensures
            index_views(r@) == self@,
    {
        &self.entries
    }

    /// How many collections there are.
    pub fn len(&self) -> (r: usize)
        ensures
            r == self@.len(),
    {
        self.entries.len()
    }
}

/// Adds document `name` to each collection of `collections`, in order: at the end of its
/// members, creating the collection when it is new. A document named twice by one collection
/// is added twice.
pub fn aggregate_collections(name: String, collections: Vec<String>, aggregate: Aggregate) -> (r:
    Aggregate)
    ensures
        r@ == aggregated(aggregate@, name@, str_views(collections@)),
        unique_keys(aggregate@) ==> unique_keys(r@),
{
    let mut entries = aggregate.entries;
    let ghost m0 = index_views(entries@);
    let ghost cols = str_views(collections@);
    let mut i: usize = 0;
    while i < collections.len()
        invariant
            i <= collections.len(),
            cols == str_views(collections@),
            index_views(entries@) == aggregated(m0, name@, cols.take(i as int)),
        decreases collections.len() - i,
    {
        let ghost before = index_views(entries@);
        assert(cols.take(i + 1).drop_last() =~= cols.take(i as int));
        let c = &collections[i];
        match find_collection(&entries, c) {
            Some(j) => {
                let mut members = entries[j].1.clone();
                assert(str_views(members@) == before[j as int].1) by {
                    assert(members@ =~= entries@[j as int].1@);
                }
                let ghost old_members = members@;
                members.push(name.clone());
                assert(str_views(members@) =~= before[j as int].1.push(name@)) by {
                    assert(members@ == old_members.push(name));
                }
                let key = c.clone();
                entries[j] = (key, members);
                assert(index_views(entries@) =~= before.update(
                    j as int,
                    (c@, before[j as int].1.push(name@)),
                )) by {
                    lemma_key_index(before, c@);
                }
            },
            None => {
                let mut members: Vec<String> = Vec::new();
                members.push(name.clone());
                entries.push((c.clone(), members));
                assert(str_views(members@) =~= seq![name@]);
                assert(index_views(entries@) =~= before.push((c@, seq![name@])));
            },
        }
        i = i + 1;
    }
    assert(cols.take(i as int) =~= cols);
    proof {
        if unique_keys(m0) {
            lemma_aggregate_appends(m0, name@, cols, Seq::empty());
        }
    }
    Aggregate { entries }
}

} // verus!
