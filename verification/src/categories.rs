//! Book categories: splitting Google Books category paths into labels and
//! recognising labels too vague to describe a reader's taste.

use vstd::prelude::*;
use crate::text::{
    all_white_space, trim_ignores_white_padding, normalize, normalized, same_text, split_on, split_str, string_views, trim, trim_is_idempotent,
    trim_str,
};

verus! {

/// A category label of a book.
pub struct CategoryDto {
    pub name: String,
}

/// The separator between levels of a Google Books category path
/// ("Fiction / Science Fiction / General").
pub open spec fn category_separator() -> Seq<char> {
    seq![' ', '/', ' ']
}

/// The labels of one category path: the pieces between separators, trimmed.
pub open spec fn category_labels_of(path: Seq<char>) -> Seq<Seq<char>> {
    split_on(path, category_separator()).map_values(|p: Seq<char>| trim(p))
}

/// The labels of a category path, as `path.split(" / ").map(|n| n.trim())`
/// gives them.
pub fn category_labels(path: &str) -> (r: Vec<String>)
    ensures
        string_views(r@) == category_labels_of(path@),
{
    let sep = String::new().concat(" ").concat("/").concat(" ");
    proof {
        reveal_strlit(" ");
        reveal_strlit("/");
        assert(sep@ =~= category_separator());
    }
    let pieces = split_str(path, sep.as_str());
    let mut out: Vec<String> = Vec::new();
    let mut i: usize = 0;
    while i < pieces.len()
        invariant
            i <= pieces.len(),
            string_views(pieces@) == split_on(path@, category_separator()),
            string_views(out@) =~= string_views(pieces@).take(i as int).map_values(
                |p: Seq<char>| trim(p),
            ),
        decreases pieces.len() - i,
    {
        let t = trim_str(pieces[i].as_str());
        let ghost before = out@;
        out.push(t);
        proof {
            let sv = string_views(pieces@);
            assert(sv.take(i + 1) =~= sv.take(i as int).push(sv[i as int]));
            assert(sv[i as int] == pieces@[i as int]@);
            assert(string_views(out@) =~= string_views(before).push(t@));
        }
        i = i + 1;
    }
    assert(string_views(pieces@).take(pieces.len() as int) =~= string_views(pieces@));
    out
}

/// Category names that say nothing specific about a book, compared after
/// trimming and lower-casing.
pub open spec fn vague_category_names() -> Seq<Seq<char>> {
    seq![
        ""@,
        "general"@,
        "reference"@,
        "literary collections"@,
        "unclassifiable"@,
        "miscellaneous"@,
        "fiction"@,
        "non-fiction"@,
        "nonfiction"@,
        "juvenile fiction"@,
        "juvenile nonfiction"@,
        "young adult fiction"@,
        "général"@,
        "générale"@,
        "ouvrages de référence"@,
        "divers"@,
        "autre"@,
        "autres"@,
        "books"@,
        "livres"@,
    ]
}

/// Whether a category name is vague or generic: its trimmed, lower-cased
/// form is one of `vague_category_names`.
pub open spec fn is_vague_category(name: Seq<char>) -> bool {
    vague_category_names().contains(normalized(name))
}

fn vague_names() -> (r: Vec<&'static str>)
    ensures
        r@.map_values(|x: &str| x@) == vague_category_names(),
{
    let v: Vec<&'static str> = vec![
        "",
        "general",
        "reference",
        "literary collections",
        "unclassifiable",
        "miscellaneous",
        "fiction",
        "non-fiction",
        "nonfiction",
        "juvenile fiction",
        "juvenile nonfiction",
        "young adult fiction",
        "général",
        "générale",
        "ouvrages de référence",
        "divers",
        "autre",
        "autres",
        "books",
        "livres",
    ];
    assert(v@.map_values(|x: &str| x@) =~= vague_category_names());
    v
}

/// Whether `cat` is a vague or generic category name, compared without
/// surrounding white space and without case.
pub fn is_vague_or_generic_category(cat: &str) -> (r: bool)
    ensures
        r == is_vague_category(cat@),
{
    let lower = normalize(cat);
    let names = vague_names();
    let ghost views = names@.map_values(|x: &str| x@);
    let mut i: usize = 0;
    while i < names.len()
        invariant
            i <= names.len(),
            views == names@.map_values(|x: &str| x@),
            views == vague_category_names(),
            lower@ == normalized(cat@),
            forall|k: int| 0 <= k < i ==> views[k] != lower@,
        decreases names.len() - i,
    {
        if same_text(lower.as_str(), names[i]) {
            assert(views[i as int] == lower@);
            assert(views.contains(lower@));
            return true;
        }
        i = i + 1;
    }
    assert(!views.contains(lower@));
    false
}


/// The vague-category test ignores white space around the name: a name and
/// its trimmed form are judged alike.
pub proof fn vague_ignores_surrounding_space(name: Seq<char>)
    ensures
        is_vague_category(trim(name)) == is_vague_category(name),
{
    trim_is_idempotent(name);
}

/// White space added around a name (spaces, tabs, line breaks...) does not
/// change whether it is vague.
pub proof fn vague_ignores_white_padding(pre: Seq<char>, name: Seq<char>, suf: Seq<char>)
    requires
        all_white_space(pre),
        all_white_space(suf),
    ensures
        is_vague_category(pre + name + suf) == is_vague_category(name),
{
    trim_ignores_white_padding(pre, name, suf);
}

/// A category name is vague exactly when, trimmed and lower-cased, it is
/// empty or one of the catalogue's generic names (in English or French).
pub proof fn vague_names_are_the_generic_ones(name: Seq<char>)
    ensures
        is_vague_category(name) <==> {
            let n = normalized(name);
            ||| n == ""@
            ||| n == "general"@
            ||| n == "reference"@
            ||| n == "literary collections"@
            ||| n == "unclassifiable"@
            ||| n == "miscellaneous"@
            ||| n == "fiction"@
            ||| n == "non-fiction"@
            ||| n == "nonfiction"@
            ||| n == "juvenile fiction"@
            ||| n == "juvenile nonfiction"@
            ||| n == "young adult fiction"@
            ||| n == "général"@
            ||| n == "générale"@
            ||| n == "ouvrages de référence"@
            ||| n == "divers"@
            ||| n == "autre"@
            ||| n == "autres"@
            ||| n == "books"@
            ||| n == "livres"@
        },
{
    let v = vague_category_names();
    let n = normalized(name);
    assert(v.len() == 20);
    if v.contains(n) {
        let k = choose|k: int| 0 <= k < v.len() && v[k] == n;
        assert(v[k] == n);
    }
    if n == ""@ { assert(v[0] == n); }
    if n == "general"@ { assert(v[1] == n); }
    if n == "reference"@ { assert(v[2] == n); }
    if n == "literary collections"@ { assert(v[3] == n); }
    if n == "unclassifiable"@ { assert(v[4] == n); }
    if n == "miscellaneous"@ { assert(v[5] == n); }
    if n == "fiction"@ { assert(v[6] == n); }
    if n == "non-fiction"@ { assert(v[7] == n); }
    if n == "nonfiction"@ { assert(v[8] == n); }
    if n == "juvenile fiction"@ { assert(v[9] == n); }
    if n == "juvenile nonfiction"@ { assert(v[10] == n); }
    if n == "young adult fiction"@ { assert(v[11] == n); }
    if n == "général"@ { assert(v[12] == n); }
    if n == "générale"@ { assert(v[13] == n); }
    if n == "ouvrages de référence"@ { assert(v[14] == n); }
    if n == "divers"@ { assert(v[15] == n); }
    if n == "autre"@ { assert(v[16] == n); }
    if n == "autres"@ { assert(v[17] == n); }
    if n == "books"@ { assert(v[18] == n); }
    if n == "livres"@ { assert(v[19] == n); }
}

/// Every label of a category path is already trimmed.
pub proof fn category_labels_are_trimmed(path: Seq<char>)
    ensures
        forall|i: int|
            0 <= i < category_labels_of(path).len() ==> trim(#[trigger] category_labels_of(path)[i])
                == category_labels_of(path)[i],
{
    assert forall|i: int| 0 <= i < category_labels_of(path).len() implies trim(
        #[trigger] category_labels_of(path)[i],
    ) == category_labels_of(path)[i] by {
        trim_is_idempotent(split_on(path, category_separator())[i]);
    }
}

} // verus!
