//! String building used by the pipeline runners for their messages and logs.

use vstd::prelude::*;
use vstd::string::StringExecFns;

verus! {

/// The characters of `parts` joined with `sep` between consecutive parts.
pub open spec fn join_chars(parts: Seq<Seq<char>>, sep: Seq<char>) -> Seq<char>
    decreases parts.len(),
{
    if parts.len() == 0 {
        Seq::empty()
    } else if parts.len() == 1 {
        parts[0]
    } else {
        join_chars(parts.drop_last(), sep) + sep + parts.last()
    }
}

/// Each part occurs, as a contiguous stretch, in the joined text.
pub proof fn lemma_join_contains(parts: Seq<Seq<char>>, sep: Seq<char>, k: int)
    requires
        0 <= k < parts.len(),
    ensures
        exists|p: int|
            0 <= p && p + parts[k].len() <= join_chars(parts, sep).len()
                && #[trigger] join_chars(parts, sep).subrange(p, p + parts[k].len()) == parts[k],
    decreases parts.len(),
{
    let j = join_chars(parts, sep);
    if parts.len() == 1 {
        assert(j.subrange(0, parts[k].len() as int) =~= parts[k]);
        assert(0 <= 0int && 0int + parts[k].len() <= j.len() && j.subrange(0int, 0int + parts[k].len()) == parts[k]);
    } else if k == parts.len() - 1 {
        let prefix = join_chars(parts.drop_last(), sep) + sep;
        let p = prefix.len() as int;
        assert(j == prefix + parts[k]);
        assert(j.subrange(p, p + parts[k].len()) =~= parts[k]);
    } else {
        lemma_join_contains(parts.drop_last(), sep, k);
        let jd = join_chars(parts.drop_last(), sep);
        let p = choose|p: int|
            0 <= p && p + parts.drop_last()[k].len() <= jd.len()
                && #[trigger] jd.subrange(p, p + parts.drop_last()[k].len()) == parts.drop_last()[k];
        assert(parts.drop_last()[k] == parts[k]);
        assert(j == jd + sep + parts.last());
        assert(j.subrange(p, p + parts[k].len()) =~= jd.subrange(p, p + parts[k].len()));
    }
}

/// The concatenation of two string slices.
pub fn concat2(a: &str, b: &str) -> (r: String)
    ensures
        r@ == a@ + b@,
{
    let mut s = String::from_str(a);
    s.append(b);
    s
}

/// The concatenation of three string slices.
pub fn concat3(a: &str, b: &str, c: &str) -> (r: String)
    ensures
        r@ == a@ + b@ + c@,
{
    let mut s = String::from_str(a);
    s.append(b);
    s.append(c);
    s
}

/// The concatenation of four string slices.
pub fn concat4(a: &str, b: &str, c: &str, d: &str) -> (r: String)
    ensures
        r@ == a@ + b@ + c@ + d@,
{
    let mut s = String::from_str(a);
    s.append(b);
    s.append(c);
    s.append(d);
    s
}

} // verus!
