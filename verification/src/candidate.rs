//! Candidate files and what their names say about them.
//!
//! A candidate is known by its path, as text, and by its file name, the last
//! component of that path. Everything here is decided from the name alone; no
//! file is opened.

use crate::text::{
    chars_of, eq_ignore_ascii_case, eq_up_to_ascii_case, lowercased, same_text, split, split_on,
    text_of, to_lowercase, trim, trimmed,
};
use vstd::prelude::*;
use vstd::string::*;

verus! {

/// A regular file that the traversal found.
pub struct CandidateFile {
    /// The path, as it is reported in a match.
    pub path: String,
    /// The last component of the path.
    pub file_name: String,
}

/// The mathematical content of a `CandidateFile`.
pub struct CandidateView {
    pub path: Seq<char>,
    pub file_name: Seq<char>,
}

impl View for CandidateFile {
    type V = CandidateView;

    open spec fn view(&self) -> CandidateView {
        CandidateView { path: self.path@, file_name: self.file_name@ }
    }
}

/// The index of the last `.` in `name`, or -1 where it has none.
pub open spec fn last_dot(name: Seq<char>) -> int
    decreases name.len(),
{
    if name.len() == 0 {
        -1
    } else if name.last() == '.' {
        name.len() - 1
    } else {
        last_dot(name.drop_last())
    }
}

/// The extension of a file name: what follows its last `.`, unless the name
/// has no `.`, or none but a leading one, or is `..`.
pub open spec fn extension_of(name: Seq<char>) -> Option<Seq<char>> {
    let dot = last_dot(name);
    if dot <= 0 || name == seq!['.', '.'] {
        None
    } else {
        Some(name.skip(dot + 1))
    }
}

/// Whether an extension is `pdf`, whatever the case of its letters.
pub open spec fn is_pdf_extension(ext: Seq<char>) -> bool {
    eq_up_to_ascii_case(ext, "pdf"@)
}

/// Whether a file name has the extension `pdf`, whatever the case.
pub open spec fn is_pdf_name(name: Seq<char>) -> bool {
    match extension_of(name) {
        Some(ext) => is_pdf_extension(ext),
        None => false,
    }
}

/// Whether `ext`, already in lower case, is one of the extensions that are
/// taken for text.
pub open spec fn is_text_extension(ext: Seq<char>) -> bool {
    ||| ext == "txt"@
    ||| ext == "md"@
    ||| ext == "rs"@
    ||| ext == "js"@
    ||| ext == "css"@
    ||| ext == "html"@
    ||| ext == "htm"@
    ||| ext == "json"@
    ||| ext == "toml"@
    ||| ext == "yaml"@
    ||| ext == "yml"@
    ||| ext == "py"@
    ||| ext == "java"@
    ||| ext == "c"@
    ||| ext == "cpp"@
    ||| ext == "h"@
    ||| ext == "hpp"@
    ||| ext == "ts"@
    ||| ext == "tsx"@
}

/// Whether a file name has, in whatever case, one of the text extensions.
pub open spec fn is_text_name(name: Seq<char>) -> bool {
    match extension_of(name) {
        Some(ext) => is_text_extension(lowercased(ext)),
        None => false,
    }
}

/// Whether a directory of this name is left out of the traversal.
pub open spec fn is_ignored_name(name: Seq<char>) -> bool {
    ||| name == ".git"@
    ||| name == "target"@
    ||| name == "node_modules"@
}

/// Whether a file name passes the allow-list: always where there is no list,
/// else where the name has an extension whose lower-case form is in the list.
pub open spec fn name_allowed(name: Seq<char>, allowed: Option<Seq<Seq<char>>>) -> bool {
    match allowed {
        None => true,
        Some(list) => match extension_of(name) {
            Some(ext) => list.contains(lowercased(ext)),
            None => false,
        },
    }
}

/// The allow-list that a comma-separated string stands for: each piece
/// trimmed and put in lower case, the empty ones left out.
pub open spec fn normalized_extensions(s: Seq<char>) -> Seq<Seq<char>> {
    split_on(s, ',').map_values(|piece: Seq<char>| lowercased(trimmed(piece))).filter(
        |ext: Seq<char>| ext.len() > 0,
    )
}

/// The extension of a file name.
pub fn extension(file_name: &str) -> (r: Option<String>)
    ensures
        r.deep_view() == extension_of(file_name@),
{
    let c = chars_of(file_name);
    let mut k: usize = c.len();
    assert(c@.take(k as int) =~= c@);
    while k > 0 && c[k - 1] != '.'
        invariant
            k <= c.len(),
            last_dot(c@) == last_dot(c@.take(k as int)),
        decreases k,
    {
        assert(c@.take(k as int).drop_last() =~= c@.take(k - 1));
        k -= 1;
    }
    // `k` is one past the last dot, or 0 where there is none.
    if k <= 1 {
        return None;
    }
    assert(last_dot(c@) == k - 1);
    if c.len() == 2 && c[0] == '.' {
        assert(c@ =~= seq!['.', '.']);
        return None;
    }
    assert(c@ != seq!['.', '.']) by {
        if c@ == seq!['.', '.'] {
            assert(c@.len() == 2 && c@[0] == '.');
        }
    }
    let ext = text_of(&c, k, c.len());
    assert(c@.skip(k as int) =~= c@.subrange(k as int, c.len() as int));
    Some(ext)
}

/// Whether `list` holds the string `s`.
pub fn list_contains(list: &Vec<String>, s: &str) -> (r: bool)
    ensures
        r == list.deep_view().contains(s@),
{
    let mut i: usize = 0;
    while i < list.len()
        invariant
            i <= list.len(),
            forall|k: int| 0 <= k < i ==> list.deep_view()[k] != s@,
        decreases list.len() - i,
    {
        if same_text(list[i].as_str(), s) {
            assert(list.deep_view()[i as int] == s@);
            return true;
        }
        i += 1;
    }
    false
}

/// Whether `ext`, already in lower case, is one of the text extensions.
pub fn is_text_ext(ext: &str) -> (r: bool)
    ensures
        r == is_text_extension(ext@),
{
    same_text(ext, "txt")
        || same_text(ext, "md")
        || same_text(ext, "rs")
        || same_text(ext, "js")
        || same_text(ext, "css")
        || same_text(ext, "html")
        || same_text(ext, "htm")
        || same_text(ext, "json")
        || same_text(ext, "toml")
        || same_text(ext, "yaml")
        || same_text(ext, "yml")
        || same_text(ext, "py")
        || same_text(ext, "java")
        || same_text(ext, "c")
        || same_text(ext, "cpp")
        || same_text(ext, "h")
        || same_text(ext, "hpp")
        || same_text(ext, "ts")
        || same_text(ext, "tsx")
}

/// Whether this is the name of a directory that is left out of the
/// traversal: the metadata of version control, build output, and the cache
/// of dependencies.
pub fn is_ignored_dir(name: &str) -> (r: bool)
    ensures
        r == is_ignored_name(name@),
{
    same_text(name, ".git") || same_text(name, "target") || same_text(name, "node_modules")
}

/// Whether the traversal leaves an entry and all below it out: it does for a
/// directory with one of the ignored names, and for nothing else. A regular
/// file of such a name stays a candidate.
pub fn prunes_entry(name: &str, is_dir: bool) -> (r: bool)
    ensures
        r == (is_dir && is_ignored_name(name@)),
{
    is_dir && is_ignored_dir(name)
}

/// The allow-list that a comma-separated string stands for.
pub fn parse_ext_list(s: &str) -> (r: Vec<String>)
    ensures
        r.deep_view() == normalized_extensions(s@),
{
    let pieces = split(s, ',');
    let ghost normalize = |piece: Seq<char>| lowercased(trimmed(piece));
    let ghost nonempty = |ext: Seq<char>| ext.len() > 0;
    let ghost all = pieces.deep_view().map_values(normalize);
    let mut out: Vec<String> = Vec::new();
    let mut i: usize = 0;
    proof {
        reveal(Seq::filter);
        assert(all.take(0).filter(nonempty) =~= Seq::<Seq<char>>::empty());
        assert(out.deep_view() =~= Seq::<Seq<char>>::empty());
    }
    while i < pieces.len()
        invariant
            i <= pieces.len(),
            all == pieces.deep_view().map_values(normalize),
            nonempty == |ext: Seq<char>| ext.len() > 0,
            normalize == |piece: Seq<char>| lowercased(trimmed(piece)),
            out.deep_view() == all.take(i as int).filter(nonempty),
        decreases pieces.len() - i,
    {
        let bare = trim(pieces[i].as_str());
        let ext = to_lowercase(bare.as_str());
        let ghost before = out.deep_view();
        proof {
            assert(ext@ == all[i as int]);
            assert(all.take(i + 1) =~= all.take(i as int).push(all[i as int]));
            all.take(i as int).lemma_filter_push(all[i as int], nonempty);
        }
        if ext.as_str().unicode_len() > 0 {
            out.push(ext);
            assert(out.deep_view() =~= before.push(ext@));
        }
        i += 1;
    }
    assert(all.take(pieces.len() as int) =~= all);
    out
}

impl CandidateFile {
    /// A candidate with this path and this file name.
    pub fn new(path: String, file_name: String) -> (r: CandidateFile)
        ensures
            r@ == (CandidateView { path: path@, file_name: file_name@ }),
    {
        CandidateFile { path, file_name }
    }

    /// Whether the candidate is a PDF: its extension is `pdf`, whatever the
    /// case of the letters.
    pub fn is_pdf(&self) -> (r: bool)
        ensures
            r == is_pdf_name(self@.file_name),
    {
        match extension(self.file_name.as_str()) {
            Some(ext) => eq_ignore_ascii_case(ext.as_str(), "pdf"),
            None => false,
        }
    }

    /// Whether the candidate's extension, in whatever case, is one of those
    /// that are taken for text.
    pub fn is_probably_text(&self) -> (r: bool)
        ensures
            r == is_text_name(self@.file_name),
    {
        match extension(self.file_name.as_str()) {
            Some(ext) => {
                let lower = to_lowercase(ext.as_str());
                is_text_ext(lower.as_str())
            },
            None => false,
        }
    }

    /// Whether the candidate passes the extension allow-list.
    pub fn ext_allowed(&self, allowed: Option<&Vec<String>>) -> (r: bool)
        ensures
            r == name_allowed(
                self@.file_name,
                match allowed {
                    Some(list) => Some(list.deep_view()),
                    None => None,
                },
            ),
    {
        match allowed {
            None => true,
            Some(list) => match extension(self.file_name.as_str()) {
                Some(ext) => {
                    let lower = to_lowercase(ext.as_str());
                    list_contains(list, lower.as_str())
                },
                None => false,
            },
        }
    }
}

} // verus!
