//! Path operations that the dynamic library path resolver relies on.
use vstd::prelude::*;

verus! {

/// The path that `rel` names relative to `base`, by the platform's rules for
/// adjoining paths.
pub uninterp spec fn joined(base: Seq<char>, rel: Seq<char>) -> Seq<char>;

/// Relies on camino's `Utf8Path::join`: its result depends only on the two paths.
#[verifier::external_body]
pub(crate) fn join(base: &str, rel: &str) -> (r: String)
    ensures
        r@ == joined(base@, rel@),
{
    camino::Utf8Path::new(base).join(rel).into_string()
}

/// Relies on camino's `Utf8Path::exists`, which asks the file system whether
/// the path names an entry now. Nothing is known of its answer.
#[verifier::external_body]
pub(crate) fn path_exists(path: &str) -> (r: bool) {
    camino::Utf8Path::new(path).exists()
}

/// Relies on `std::path::MAIN_SEPARATOR_STR`, which is `/` or `\`.
#[verifier::external_body]
pub(crate) fn main_separator() -> (r: &'static str)
    ensures
        r@ == seq!['/'] || r@ == seq!['\\'],
{
    std::path::MAIN_SEPARATOR_STR
}

/// `rel` with each `/` replaced by `sep`.
pub open spec fn with_main_sep(rel: Seq<char>, sep: Seq<char>) -> Seq<char>
    decreases rel.len(),
{
    if rel.len() == 0 {
        seq![]
    } else {
        with_main_sep(rel.drop_last(), sep) + if rel.last() == '/' {
            sep
        } else {
            seq![rel.last()]
        }
    }
}

/// Rewrites the separators of the relative path `rel` as `sep`.
pub fn convert_rel_path_to_main_sep(rel: &str, sep: &str) -> (r: String)
    ensures
        r@ == with_main_sep(rel@, sep@),
{
    let n = rel.unicode_len();
    let mut r = String::new();
    let mut i: usize = 0;
    while i < n
        invariant
            i <= n,
            n == rel@.len(),
            r@ == with_main_sep(rel@.subrange(0, i as int), sep@),
        decreases n - i,
    {
        let c = rel.get_char(i);
        if c == '/' {
            r.append(sep);
        } else {
            r.append(rel.substring_char(i, i + 1));
        }
        proof {
            let p = rel@.subrange(0, i + 1);
            assert(p.drop_last() =~= rel@.subrange(0, i as int));
            assert(p.last() == c);
            assert(rel@.subrange(i as int, i + 1) =~= seq![c]);
        }
        i = i + 1;
    }
    proof {
        assert(rel@.subrange(0, i as int) =~= rel@);
    }
    r
}

} // verus!
