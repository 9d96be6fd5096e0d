use vstd::prelude::*;

use crate::collections::{name_list, parse_collections, str_views};
use crate::front_matter::{get_tags, lookup, parse_front_matter, ErrorKind};
use crate::text::{
    append_chars, chars_of, find_delim, is_delim_at, last_delim, string_from_chars, trim,
    trim_chars,
};

verus! {

/// A collection document: its title, its creation date as written, its member documents, and
/// the free text under the header.
#[derive(Debug, PartialEq)]
pub struct CollectionData {
    pub title: String,
    pub created: String,
    pub poems: Vec<String>,
    pub desc: String,
}

/// What a collection document holds, as sequences of characters.
pub struct CollectionView {
    pub title: Seq<char>,
    pub created: Seq<char>,
    pub poems: Seq<Seq<char>>,
    pub desc: Seq<char>,
}

impl View for CollectionData {
    type V = CollectionView;

    open spec fn view(&self) -> CollectionView {
        CollectionView {
            title: self.title@,
            created: self.created@,
            poems: str_views(self.poems@),
            desc: self.desc@,
        }
    }
}

/// The same collection with `poems` as its members.
pub fn update_collection_poems(collection: CollectionData, poems: Vec<String>) -> (r:
    CollectionData)
    ensures
        r@ == (CollectionView { poems: str_views(poems@), ..collection@ }),
{
    CollectionData { poems, ..collection }
}

/// `---\ntitle: `
pub open spec fn lit_title() -> Seq<char> {
    seq!['-', '-', '-', '\n', 't', 'i', 't', 'l', 'e', ':', ' ']
}

/// `\ncreated: `
pub open spec fn lit_created() -> Seq<char> {
    seq!['\n', 'c', 'r', 'e', 'a', 't', 'e', 'd', ':', ' ']
}

/// `\npoems:\n`
pub open spec fn lit_poems() -> Seq<char> {
    seq!['\n', 'p', 'o', 'e', 'm', 's', ':', '\n']
}

/// `---\n\n`
pub open spec fn lit_close() -> Seq<char> {
    seq!['-', '-', '-', '\n', '\n']
}

/// `- name`: the header line of one member.
pub open spec fn member_line(name: Seq<char>) -> Seq<char> {
    seq!['-', ' '] + name
}

/// The lines joined by `'\n'`.
pub open spec fn join_lines(lines: Seq<Seq<char>>) -> Seq<char>
    decreases lines.len(),
{
    if lines.len() == 0 {
        Seq::empty()
    } else if lines.len() == 1 {
        lines[0]
    } else {
        join_lines(lines.drop_last()) + seq!['\n'] + lines.last()
    }
}

/// The member lines of `poems`, joined by `'\n'`.
pub open spec fn member_block(poems: Seq<Seq<char>>) -> Seq<char> {
    join_lines(poems.map_values(|p: Seq<char>| member_line(p)))
}

/// The member lines of `poems`, each ending in `'\n'`; nothing when there are no members.
pub open spec fn member_section(poems: Seq<Seq<char>>) -> Seq<char> {
    if poems.len() == 0 {
        Seq::empty()
    } else {
        member_block(poems) + seq!['\n']
    }
}

/// The text of a collection document.
pub open spec fn render(c: CollectionView) -> Seq<char> {
    lit_title() + c.title + lit_created() + c.created + lit_poems() + member_section(c.poems)
        + lit_close() + c.desc + seq!['\n']
}

/// Appends the characters of a literal.
fn push_lit(v: &mut Vec<char>, lit: &str)
    ensures
        final(v)@ == old(v)@ + lit@,
{
    let l = chars_of(lit);
    append_chars(v, &l);
}

/// Writes a collection document: a header with `title`, `created` and one `- name` line per
/// member under `poems:` (no line at all without members), a blank line, then the description
/// and a final newline.
pub fn create_collection_template(data: CollectionData) -> (r: String)
    ensures
        r@ == render(data@),
{
    let mut out: Vec<char> = Vec::new();
    proof {
        reveal_strlit("---\ntitle: ");
        reveal_strlit("\ncreated: ");
        reveal_strlit("\npoems:\n");
        reveal_strlit("---\n\n");
        reveal_strlit("\n");
    }
    push_lit(&mut out, "---\ntitle: ");
    append_chars(&mut out, &chars_of(data.title.as_str()));
    push_lit(&mut out, "\ncreated: ");
    append_chars(&mut out, &chars_of(data.created.as_str()));
    push_lit(&mut out, "\npoems:\n");
    let ghost head = out@;
    let ghost lines = data@.poems.map_values(|p: Seq<char>| member_line(p));
    let mut i: usize = 0;
    while i < data.poems.len()
        invariant
            i <= data.poems.len(),
            lines == data@.poems.map_values(|p: Seq<char>| member_line(p)),
            out@ == head + join_lines(lines.take(i as int)),
        decreases data.poems.len() - i,
    {
        proof {
            reveal_strlit("\n");
            reveal_strlit("- ");
        }
        assert(lines.take(i + 1).drop_last() =~= lines.take(i as int));
        assert(lines.take(i + 1).last() == member_line(data.poems[i as int]@));
        if i == 0 {
            assert(join_lines(lines.take(i + 1)) == member_line(data.poems[i as int]@));
        } else {
            assert(join_lines(lines.take(i + 1)) == join_lines(lines.take(i as int)) + seq!['\n']
                + member_line(data.poems[i as int]@));
        }
        if i > 0 {
            push_lit(&mut out, "\n");
        }
        push_lit(&mut out, "- ");
        append_chars(&mut out, &chars_of(data.poems[i].as_str()));
        assert(out@ =~= head + join_lines(lines.take(i + 1)));
        i = i + 1;
    }
    assert(lines.take(i as int) =~= lines);
    if data.poems.len() > 0 {
        push_lit(&mut out, "\n");
    }
    assert(out@ == head + member_section(data@.poems));
    push_lit(&mut out, "---\n\n");
    append_chars(&mut out, &chars_of(data.desc.as_str()));
    push_lit(&mut out, "\n");
    string_from_chars(&out)
}

/// `s` without the span from its first `---` to the end of its last `---` that starts at
/// least three characters later; unchanged when there is no such pair.
pub open spec fn remove_header_span(s: Seq<char>) -> Seq<char> {
    match find_delim(s, 0) {
        None => s,
        Some(p) => match last_delim(s, p + 3, s.len() - 3) {
            None => s,
            Some(q) => s.take(p) + s.skip(q + 3),
        },
    }
}

/// `---.*---`
pub open spec fn span_pattern() -> Seq<char> {
    seq!['-', '-', '-', '.', '*', '-', '-', '-']
}

/// Relies on regex's `RegexBuilder::new`, `dot_matches_new_line`, `build` and
/// `Regex::replace_all`: with `.` matching any character, `---.*---` matches leftmost and
/// greedy, from the first `---` to the end of the last `---` that starts at least three
/// characters after it, so there is at most one match; `replace_all` replaces it by nothing.
/// The pattern is valid, so `build` does not fail.
#[verifier::external_body]
fn remove_all_matches(pattern: &str, text: &str) -> (r: String)
    requires
        pattern@ == span_pattern(),
    ensures
        r@ == remove_header_span(text@),
{
    let re = regex::RegexBuilder::new(pattern).dot_matches_new_line(true).build().unwrap();
    re.replace_all(text, "").into_owned()
}

/// `title`
pub open spec fn title_key() -> Seq<char> {
    seq!['t', 'i', 't', 'l', 'e']
}

/// `created`
pub open spec fn created_key() -> Seq<char> {
    seq!['c', 'r', 'e', 'a', 't', 'e', 'd']
}

/// `poems`
pub open spec fn poems_key() -> Seq<char> {
    seq!['p', 'o', 'e', 'm', 's']
}

/// The collection that a document describes: `title` and `created` from its header (both
/// required), the members from the `poems` list (none without it), and as description the
/// text left when the span between the outermost delimiters is removed, trimmed.
pub open spec fn parse_collection(text: Seq<char>) -> Result<CollectionView, ErrorKind> {
    match parse_front_matter(text) {
        Err(e) => Err(e),
        Ok(m) => if lookup(m, title_key()) is Some && lookup(m, created_key()) is Some {
            Ok(
                CollectionView {
                    title: lookup(m, title_key())->Some_0,
                    created: lookup(m, created_key())->Some_0,
                    poems: match lookup(m, poems_key()) {
                        Some(p) => name_list(p),
                        None => Seq::empty(),
                    },
                    desc: trim(remove_header_span(text)),
                },
            )
        } else {
            Err(ErrorKind::MissingRequiredField)
        },
    }
}

/// Reads a collection document back into its record.
pub fn parse_collection_template(raw: &str) -> (r: Result<CollectionData, ErrorKind>)
    ensures
        match parse_collection(raw@) {
            Ok(c) => r is Ok && r->Ok_0@ == c,
            Err(e) => r == Err::<CollectionData, ErrorKind>(e),
        },
{
    let tags = match get_tags(raw) {
        Ok(t) => t,
        Err(e) => {
            return Err(e);
        },
    };
    proof {
        reveal_strlit("title");
        reveal_strlit("created");
        reveal_strlit("poems");
        reveal_strlit("---.*---");
    }
    assert("title"@ =~= title_key());
    assert("created"@ =~= created_key());
    assert("poems"@ =~= poems_key());
    assert("---.*---"@ =~= span_pattern());
    let title = match tags.get("title") {
        Some(t) => t.clone(),
        None => {
            return Err(ErrorKind::MissingRequiredField);
        },
    };
    let created = match tags.get("created") {
        Some(c) => c.clone(),
        None => {
            return Err(ErrorKind::MissingRequiredField);
        },
    };
    let poems = match tags.get("poems") {
        Some(p) => parse_collections(p.as_str()),
        None => Vec::new(),
    };
    let stripped = remove_all_matches("---.*---", raw);
    let desc = string_from_chars(&trim_chars(&chars_of(stripped.as_str())));
    let r = CollectionData { title, created, poems, desc };
    assert(str_views(r.poems@) =~= parse_collection(raw@)->Ok_0.poems);
    Ok(r)
}

} // verus!
