//! What a document is handed to the typesetter as, and what the result is
//! called.

use vstd::prelude::*;
use vstd::string::*;
use crate::paths::{slug_of, slugify};
use crate::strings::chars_of;

verus! {

/// A character of a title as it stands between double quotes: a backslash
/// and a double quote are preceded by a backslash.
pub open spec fn escaped_char(c: char) -> Seq<char> {
    if c == '\\' || c == '"' {
        seq!['\\', c]
    } else {
        seq![c]
    }
}

/// A title as it stands between double quotes.
pub open spec fn escaped(title: Seq<char>) -> Seq<char>
    decreases title.len(),
{
    if title.len() == 0 {
        Seq::empty()
    } else {
        escaped(title.drop_last()) + escaped_char(title.last())
    }
}

/// What opens the source: the front matter up to the title.
pub open spec fn front_matter_open() -> Seq<char> {
    "---\ntitle: \""@
}

/// What closes the front matter.
pub open spec fn front_matter_close() -> Seq<char> {
    "\"\n---\n\n"@
}

/// The source that is typeset: a front matter with the title, then the content.
pub open spec fn export_source_of(title: Seq<char>, content: Seq<char>) -> Seq<char> {
    front_matter_open() + escaped(title) + front_matter_close() + content
}

/// Builds the source that is typeset for a document.
pub fn export_source(title: &str, content: &str) -> (source: String)
    ensures
        source@ == export_source_of(title@, content@),
{
    let chars = chars_of(title);
    let mut source: String = "---\ntitle: \"".to_owned();
    let mut i: usize = 0;
    assert(chars@.take(0) =~= Seq::<char>::empty());
    assert(source@ =~= front_matter_open() + escaped(chars@.take(0)));
    while i < chars.len()
        invariant
            i <= chars.len(),
            chars@ == title@,
            source@ == front_matter_open() + escaped(chars@.take(i as int)),
        decreases chars.len() - i,
    {
        let c: char = chars[i];
        let ghost prev = source@;
        if c == '\\' || c == '"' {
            source.push('\\');
        }
        source.push(c);
        proof {
            let next = chars@.take(i + 1);
            assert(next.drop_last() =~= chars@.take(i as int));
            assert(next.last() == c);
            assert(source@ =~= prev + escaped_char(c));
            assert(front_matter_open() + escaped(next) =~= prev + escaped_char(c));
        }
        i = i + 1;
    }
    assert(chars@.take(chars@.len() as int) =~= chars@);
    source.append("\"\n---\n\n");
    source.append(content);
    source
}

/// The name of the typeset file of a document with the slug `slug`.
pub open spec fn export_name_of(slug: Seq<char>) -> Seq<char> {
    (if slug.len() == 0 { "document"@ } else { slug }) + ".pdf"@
}

/// Names the typeset file after the document's slug, or `document` when the
/// slug is empty.
pub fn export_name_for(slug: &str) -> (name: String)
    ensures
        name@ == export_name_of(slug@),
{
    let mut name: String = if slug.unicode_len() == 0 {
        "document".to_owned()
    } else {
        slug.to_owned()
    };
    name.append(".pdf");
    name
}

/// Names the typeset file of a document after its title.
pub fn export_name(title: &str) -> (name: String)
    ensures
        name@ == export_name_of(slug_of(title@)),
{
    let slug = slugify(title);
    export_name_for(slug.as_str())
}

} // verus!
