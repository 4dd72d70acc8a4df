//! File-system paths, held as their text.
//!
//! The verified code never looks inside a path except through file names
//! (`stem_and_extension`); joining is std's `Path::join`.
use vstd::prelude::*;

verus! {

/// The text of `Path::new(base).join(name)`, as std builds it on the
/// target this library is compiled for.
pub uninterp spec fn joined_path(base: Seq<char>, name: Seq<char>) -> Seq<char>;

/// `Path::join`: `base` with `name` adjoined. Claimed: the result is the
/// named value `joined_path(base, name)`, a function of the two texts
/// alone on a given target; nothing is said of how the separator is
/// chosen, which std fixes per target.
#[verifier::external_body]
pub(crate) fn path_join(base: &str, name: &str) -> (r: String)
    ensures
        r@ == joined_path(base@, name@),
{
    std::path::Path::new(base).join(name).to_string_lossy().into_owned()
}

/// Index of the last `.` in `name`, if any.
pub open spec fn last_dot(name: Seq<char>) -> Option<int>
    decreases name.len(),
{
    if name.len() == 0 {
        None
    } else if name.last() == '.' {
        Some(name.len() - 1)
    } else {
        last_dot(name.drop_last())
    }
}

/// `Path::file_stem` and `Path::extension` of a file name, as std documents
/// them: with no embedded `.`, or a single leading one, the stem is the
/// whole name and there is no extension; otherwise they are the parts
/// before and after the final `.`.
pub open spec fn stem_ext(name: Seq<char>) -> (Seq<char>, Option<Seq<char>>) {
    match last_dot(name) {
        Some(k) => if k > 0 {
            (name.take(k), Some(name.skip(k + 1)))
        } else {
            (name, None)
        },
        None => (name, None),
    }
}

/// Splits a file name into its stem and extension (see `stem_ext`).
pub fn stem_and_extension(name: &[char]) -> (r: (Vec<char>, Option<Vec<char>>))
    ensures
        r.0@ == stem_ext(name@).0,
        match r.1 {
            Some(e) => stem_ext(name@).1 == Some(e@),
            None => stem_ext(name@).1 is None,
        },
{
    let mut k = name.len();
    assert(name@.take(name.len() as int) == name@);
    while k > 0 && name[k - 1] != '.'
        invariant
            k <= name.len(),
            last_dot(name@) == last_dot(name@.take(k as int)),
        decreases k,
    {
        assert(name@.take(k as int).drop_last() == name@.take(k - 1));
        k = k - 1;
    }
    assert(name@.take(name.len() as int) == name@);
    if k <= 1 {
        assert(last_dot(name@.take(k as int)) == if k == 1 { Some(0int) } else { None::<int> });
        (crate::text::sub_chars(name, 0, name.len()), None)
    } else {
        assert(name@.take(k as int).last() == '.');
        let stem = crate::text::sub_chars(name, 0, k - 1);
        let ext = crate::text::sub_chars(name, k, name.len());
        (stem, Some(ext))
    }
}

/// The text of `Path::new(p).parent()`, as std computes it on the target
/// this library is compiled for.
pub uninterp spec fn parent_path(p: Seq<char>) -> Option<Seq<char>>;

/// `Path::parent`: the path without its last component, `None` for a root
/// or an empty path. Claimed: the result is the named value
/// `parent_path(p)`, a function of the text alone on a given target.
#[verifier::external_body]
pub(crate) fn path_parent(p: &str) -> (r: Option<String>)
    ensures
        match r {
            Some(s) => parent_path(p@) == Some(s@),
            None => parent_path(p@) is None,
        },
{
    match std::path::Path::new(p).parent() {
        Some(d) => Some(d.to_string_lossy().into_owned()),
        None => None,
    }
}

} // verus!
