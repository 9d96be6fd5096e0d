use vstd::prelude::*;

use crate::collections::{is_published, name_list, parse_collections, published, str_views};
use crate::front_matter::{get_tags, lookup, parse_front_matter, ErrorKind};
use crate::template::{
    create_collection_template, parse_collection, parse_collection_template, render,
    update_collection_poems, CollectionView,
};

verus! {

/// `collections`
pub open spec fn collections_key() -> Seq<char> {
    seq!['c', 'o', 'l', 'l', 'e', 'c', 't', 'i', 'o', 'n', 's']
}

/// The collections that a document joins: those listed under `collections` when its header
/// says `publish: true`; none when it is unpublished or lists no collections.
pub open spec fn document_collections(text: Seq<char>) -> Result<
    Option<Seq<Seq<char>>>,
    ErrorKind,
> {
    match parse_front_matter(text) {
        Err(e) => Err(e),
        Ok(m) => if published(m) && lookup(m, collections_key()) is Some {
            Ok(Some(name_list(lookup(m, collections_key())->Some_0)))
        } else {
            Ok(None)
        },
    }
}

/// The collections that a document joins, or why its header could not be read.
pub fn poem_collections(contents: &str) -> (r: Result<Option<Vec<String>>, ErrorKind>)
    ensures
        match document_collections(contents@) {
            Err(e) => r == Err::<Option<Vec<String>>, ErrorKind>(e),
            Ok(None) => r == Ok::<Option<Vec<String>>, ErrorKind>(None),
            Ok(Some(cs)) => r is Ok && r->Ok_0 is Some && str_views(r->Ok_0->Some_0@) == cs,
        },
{
    let tags = match get_tags(contents) {
        Ok(t) => t,
        Err(e) => {
            return Err(e);
        },
    };
    if !is_published(&tags) {
        return Ok(None);
    }
    proof {
        reveal_strlit("collections");
    }
    assert("collections"@ =~= collections_key());
    match tags.get("collections") {
        Some(c) => Ok(Some(parse_collections(c.as_str()))),
        None => Ok(None),
    }
}

/// The text of an existing collection document with its members replaced by `poems`.
pub fn update_collection_document(existing: &str, poems: Vec<String>) -> (r: Result<
    String,
    ErrorKind,
>)
    ensures
        match parse_collection(existing@) {
            Ok(c) => r is Ok && r->Ok_0@ == render(
                CollectionView { poems: str_views(poems@), ..c },
            ),
            Err(e) => r == Err::<String, ErrorKind>(e),
        },
{
    match parse_collection_template(existing) {
        Ok(c) => Ok(create_collection_template(update_collection_poems(c, poems))),
        Err(e) => Err(e),
    }
}

} // verus!
