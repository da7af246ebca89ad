//! How documents are named: the file of a project bears the project's
//! identifier as its stem and the extension `md`.

use vstd::prelude::*;
use crate::text::{chars_of, has_prefix, slice_of, string_of};

verus! {

/// The name of the file that holds the project `id`.
pub open spec fn document_name_of(id: Seq<char>) -> Seq<char> {
    id + ".md"@
}

/// Whether `name` is the name of a document: it ends with `.md`, and
/// something stands before that.
pub open spec fn is_document_name(name: Seq<char>) -> bool {
    name.len() > 3 && name.skip(name.len() - 3) =~= ".md"@
}

/// The stem of a document's name: the name without `.md` at its end.
pub open spec fn stem_of(name: Seq<char>) -> Seq<char> {
    name.take(name.len() - 3)
}

/// The file that is named after a project is a document, and its stem is
/// the project's identifier again. An empty identifier is left out: the
/// file `.md` has no stem and is no document.
pub proof fn lemma_stem_of_document_name(id: Seq<char>)
    requires
        id.len() > 0,
    ensures
        is_document_name(document_name_of(id)),
        stem_of(document_name_of(id)) == id,
{
    reveal_strlit(".md");
    let name = document_name_of(id);
    assert(name.skip(name.len() - 3) =~= ".md"@);
    assert(name.take(name.len() - 3) =~= id);
}

/// The name of the file that holds the project `project_id`.
pub fn document_name(project_id: &str) -> (name: String)
    ensures
        name@ == document_name_of(project_id@),
{
    let mut name = String::from_str(project_id);
    name.append(".md");
    name
}

/// The stem of `file_name`, where it is the name of a document.
pub fn document_stem(file_name: &str) -> (stem: Option<String>)
    ensures
        stem is Some <==> is_document_name(file_name@),
        stem is Some ==> stem->0@ == stem_of(file_name@),
{
    let name = chars_of(file_name);
    let len: usize = name.len();
    proof {
        reveal_strlit(".md");
    }
    if len > 3 && has_prefix(&name, len - 3, len, ".md") {
        assert(name@.subrange(len - 3, len as int) =~= name@.skip(len - 3));
        let stem = slice_of(&name, 0, len - 3);
        assert(stem@ =~= stem_of(name@));
        Some(string_of(&stem))
    } else {
        if len > 3 {
            assert(name@.subrange(len - 3, len as int) =~= name@.skip(len - 3));
        }
        None
    }
}

} // verus!
