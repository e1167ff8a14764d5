//! Case-insensitive matching of a path's extension against a requested list.
use vstd::prelude::*;

verus! {

/// The lowercase form that `str::to_lowercase` gives of a text.
pub uninterp spec fn lower_of(s: Seq<char>) -> Seq<char>;

/// The extension that `Path::extension` finds in a path, when it is text.
pub uninterp spec fn extension_of(path: Seq<char>) -> Option<Seq<char>>;

/// Relies on `str::to_lowercase`: the result depends on the characters alone.
#[verifier::external_body]
fn lowercase(s: &str) -> (r: String)
    ensures
        r@ == lower_of(s@),
{
    s.to_lowercase()
}

/// Relies on `Path::extension` followed by `OsStr::to_str`: the part of the
/// file name after its last `.`, or nothing. A path with no `.` at all has no
/// extension, and an extension holds no `.`.
#[verifier::external_body]
fn path_extension(path: &str) -> (r: Option<String>)
    ensures
        match r {
            Some(e) => extension_of(path@) == Some(e@),
            None => extension_of(path@) is None,
        },
        (forall|i: int| 0 <= i < path@.len() ==> path@[i] != '.') ==> r is None,
        r matches Some(e) ==> forall|i: int| 0 <= i < e@.len() ==> e@[i] != '.',
{
    std::path::Path::new(path).extension().and_then(|s| s.to_str()).map(|s| s.to_string())
}

/// The texts held by a list of strings.
pub open spec fn texts(v: Seq<String>) -> Seq<Seq<char>> {
    v.map_values(|s: String| s@)
}

/// Each requested extension in lowercase form.
pub open spec fn fold_all(requested: Seq<Seq<char>>) -> Seq<Seq<char>> {
    requested.map_values(|x: Seq<char>| lower_of(x))
}

/// Whether a path is accepted by a filter that holds `folded` (extensions
/// already in lowercase form).
pub open spec fn accepted(path: Seq<char>, folded: Seq<Seq<char>>) -> bool {
    match extension_of(path) {
        Some(e) => folded.contains(lower_of(e)),
        None => false,
    }
}

/// Whether a path's extension equals, ignoring case, one of the requested ones.
pub open spec fn extension_requested(path: Seq<char>, requested: Seq<Seq<char>>) -> bool {
    exists|e: Seq<char>, i: int|
        extension_of(path) == Some(e) && 0 <= i < requested.len() && lower_of(requested[i])
            == lower_of(e)
}

/// Whether `folded_ext` is one of `folded`. Both sides are taken as they are:
/// callers hand in texts already in lowercase form.
pub fn contains_folded(folded: &Vec<String>, folded_ext: &String) -> (r: bool)
    ensures
        r == texts(folded@).contains(folded_ext@),
{
    let mut i: usize = 0;
    while i < folded.len()
        invariant
            0 <= i <= folded.len(),
            forall|j: int| 0 <= j < i ==> folded@[j]@ != folded_ext@,
        decreases folded.len() - i,
    {
        if folded[i] == *folded_ext {
            assert(texts(folded@)[i as int] == folded_ext@);
            return true;
        }
        i = i + 1;
    }
    proof {
        if texts(folded@).contains(folded_ext@) {
            let j = choose|j: int| 0 <= j < texts(folded@).len() && texts(folded@)[j] == folded_ext@;
            assert(folded@[j]@ == folded_ext@);
        }
    }
    false
}

/// A predicate on paths: it accepts those whose extension is one of a list,
/// ignoring case.
pub struct ExtensionFilter {
    folded: Vec<String>,
}

impl View for ExtensionFilter {
    type V = Seq<Seq<char>>;

    /// The requested extensions, each in lowercase form.
    closed spec fn view(&self) -> Seq<Seq<char>> {
        texts(self.folded@)
    }
}

impl ExtensionFilter {
    /// A filter for the given extensions, written without their leading `.`.
    pub fn new(extensions: &Vec<String>) -> (r: ExtensionFilter)
        ensures
            r@ == fold_all(texts(extensions@)),
    {
        let mut folded: Vec<String> = Vec::new();
        let mut i: usize = 0;
        while i < extensions.len()
            invariant
                0 <= i <= extensions.len(),
                folded@.len() == i,
                forall|j: int| 0 <= j < i ==> folded@[j]@ == lower_of(extensions@[j]@),
            decreases extensions.len() - i,
        {
            let f = lowercase(extensions[i].as_str());
            folded.push(f);
            i = i + 1;
        }
        assert(texts(folded@) =~= fold_all(texts(extensions@)));
        ExtensionFilter { folded }
    }

    /// Whether the filter accepts `path`.
    pub fn accepts(&self, path: &str) -> (r: bool)
        ensures
            r == accepted(path@, self@),
    {
        match path_extension(path) {
            Some(ext) => {
                let folded_ext = lowercase(ext.as_str());
                contains_folded(&self.folded, &folded_ext)
            },
            None => false,
        }
    }
}

/// Whether a path with one of `extensions`, ignoring case, would be printed:
/// the rule that a scan applies to each entry.
pub fn should_print(path: &str, extensions: &Vec<String>) -> (r: bool)
    ensures
        r == accepted(path@, fold_all(texts(extensions@))),
        r == extension_requested(path@, texts(extensions@)),
{
    let filter = ExtensionFilter::new(extensions);
    proof {
        lemma_accepted_iff_requested(path@, texts(extensions@));
    }
    filter.accepts(path)
}

/// A path passes the filter built from `requested` exactly when it has an
/// extension and that extension equals one of the requested ones, both taken
/// in lowercase form.
pub proof fn lemma_accepted_iff_requested(path: Seq<char>, requested: Seq<Seq<char>>)
    ensures
        accepted(path, fold_all(requested)) == extension_requested(path, requested),
{
    match extension_of(path) {
        Some(e) => {
            if accepted(path, fold_all(requested)) {
                let i = choose|i: int|
                    0 <= i < fold_all(requested).len() && fold_all(requested)[i] == lower_of(e);
                assert(lower_of(requested[i]) == lower_of(e));
            }
            if extension_requested(path, requested) {
                let (e2, i) = choose|e2: Seq<char>, i: int|
                    extension_of(path) == Some(e2) && 0 <= i < requested.len() && lower_of(
                        requested[i],
                    ) == lower_of(e2);
                assert(fold_all(requested)[i] == lower_of(e));
            }
        },
        None => {},
    }
}

} // verus!
