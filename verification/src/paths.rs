//! Where a document's content is stored: a path derived from its title and
//! from the folder that it is created in.

use vstd::prelude::*;
use vstd::string::*;
use crate::strings::opt_str_view;

verus! {

/// The slug of a text: what `slug::slugify` makes of it.
pub uninterp spec fn slug_of(text: Seq<char>) -> Seq<char>;

/// Calls `slug::slugify`. Assumed of it: what it returns depends on the text
/// alone, so that the same text always gives the same slug. What the slug
/// looks like is not stated here.
#[verifier::external_body]
pub(crate) fn slugify(text: &str) -> (r: String)
    ensures
        r@ == slug_of(text@),
{
    slug::slugify(text)
}

/// The extension of a content file.
pub open spec fn extension() -> Seq<char> {
    ".md"@
}

/// The path of the content file of a document with the slug `slug`:
/// `{folder-slug}/{slug}.md` in a folder, `{slug}.md` at the root.
pub open spec fn file_path_of(slug: Seq<char>, folder_slug: Option<Seq<char>>) -> Seq<char> {
    match folder_slug {
        Some(folder) => folder + seq!['/'] + slug + extension(),
        None => slug + extension(),
    }
}

/// Builds the path of a content file from the document's slug and the slug
/// of its folder.
pub fn file_path_for(slug: &str, folder_slug: Option<&str>) -> (path: String)
    ensures
        path@ == file_path_of(slug@, opt_str_view(folder_slug)),
{
    let mut path = String::new();
    match folder_slug {
        Some(folder) => {
            path.append(folder);
            path.push('/');
            assert(path@ =~= folder@ + seq!['/']);
        },
        None => {
            assert(path@ =~= Seq::<char>::empty());
        },
    }
    path.append(slug);
    path.append(".md");
    assert(Seq::<char>::empty() + slug@ + extension() =~= slug@ + extension());
    path
}

/// Derives the path of a document's content file from its title and the
/// slug of its folder (`None`: at the root).
pub fn generate_file_path(title: &str, folder_slug: Option<&str>) -> (path: String)
    ensures
        path@ == file_path_of(slug_of(title@), opt_str_view(folder_slug)),
{
    let slug = slugify(title);
    file_path_for(slug.as_str(), folder_slug)
}

} // verus!
