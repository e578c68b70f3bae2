//! String helpers of the profiler: stripping a directory prefix from a
//! path and joining a command line with spaces.

use vstd::prelude::*;
use vstd::string::StrSliceExecFns;
use vstd::string::StringExecFns;

verus! {

/// The index where the file-name portion of a path begins: just after
/// the last '/', or 0 when the path holds none.
pub open spec fn basename_start(s: Seq<char>) -> int
    decreases s.len(),
{
    if s.len() == 0 {
        0
    } else if s[s.len() - 1] == '/' {
        s.len() as int
    } else {
        basename_start(s.drop_last())
    }
}

/// The file-name portion of a path: everything after the last '/'.
pub open spec fn spec_file_name(s: Seq<char>) -> Seq<char> {
    s.subrange(basename_start(s), s.len() as int)
}

proof fn lemma_basename_suffix(s: Seq<char>, i: int)
    requires
        0 <= i <= s.len(),
        forall|j: int| i <= j < s.len() ==> s[j] != '/',
    ensures
        basename_start(s) == basename_start(s.take(i)),
    decreases s.len() - i,
{
    if i == s.len() {
        assert(s.take(i) =~= s);
    } else {
        assert(s[s.len() - 1] != '/');
        assert(s.drop_last() =~= s.take(s.len() - 1));
        lemma_basename_suffix(s.take(s.len() - 1), i);
        assert(s.take(s.len() - 1).take(i) =~= s.take(i));
    }
}

/// Everything after the last '/' of `s`; the whole string when it holds
/// no '/'. A path ending in '/' yields the empty string.
pub fn file_name_of(s: &str) -> (r: String)
    ensures
        r@ == spec_file_name(s@),
{
    let n = s.unicode_len();
    let mut i = n;
    while i > 0
        invariant
            n == s@.len(),
            0 <= i <= n,
            forall|j: int| i <= j < n ==> s@[j] != '/',
        decreases i,
    {
        if s.get_char(i - 1) == '/' {
            proof {
                lemma_basename_suffix(s@, i as int);
                assert(s@.take(i as int).len() == i);
                assert(s@.take(i as int)[i - 1] == '/');
                assert(basename_start(s@.take(i as int)) == i);
            }
            let part = s.substring_char(i, n);
            return part.to_owned();
        }
        i = i - 1;
    }
    proof {
        lemma_basename_suffix(s@, 0);
        assert(s@.take(0) =~= Seq::<char>::empty());
        assert(basename_start(s@) == 0);
        assert(s@.subrange(0, s@.len() as int) =~= s@);
    }
    s.to_owned()
}

/// The characters of `parts` joined with a single space between
/// consecutive parts; empty for no parts.
pub open spec fn spec_join_spaces(parts: Seq<String>) -> Seq<char>
    decreases parts.len(),
{
    if parts.len() == 0 {
        Seq::empty()
    } else if parts.len() == 1 {
        parts[0]@
    } else {
        spec_join_spaces(parts.drop_last()) + seq![' '] + parts.last()@
    }
}

/// Joins the parts with single spaces, as a command line is displayed.
pub fn join_with_spaces(parts: &Vec<String>) -> (r: String)
    ensures
        r@ == spec_join_spaces(parts@),
{
    let n = parts.len();
    let mut r = String::new();
    let mut i: usize = 0;
    proof {
        assert(parts@.take(0) =~= Seq::<String>::empty());
    }
    while i < n
        invariant
            n == parts@.len(),
            0 <= i <= n,
            r@ == spec_join_spaces(parts@.take(i as int)),
        decreases n - i,
    {
        if i > 0 {
            r.append(" ");
            proof {
                reveal_strlit(" ");
                assert(" "@ =~= seq![' ']);
            }
        }
        r.append(parts[i].as_str());
        proof {
            assert(parts@.take(i as int + 1).drop_last() =~= parts@.take(i as int));
            assert(parts@.take(i as int + 1).last() == parts@[i as int]);
            if i == 0 {
                assert(r@ =~= parts@[0]@);
            }
        }
        i = i + 1;
    }
    proof {
        assert(parts@.take(n as int) =~= parts@);
    }
    r
}

} // verus!
