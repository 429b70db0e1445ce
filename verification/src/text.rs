//! Small operations on text, stated over sequences of characters.

use vstd::prelude::*;
use vstd::string::*;

verus! {

/// The root path, `/`.
pub open spec fn root_path() -> Seq<char> {
    seq!['/']
}

/// The prefix that marks a home mount, `/home`.
pub open spec fn home_prefix() -> Seq<char> {
    seq!['/', 'h', 'o', 'm', 'e']
}

/// Index at which the last segment of `path` starts: just behind its last
/// `/`, or 0 where it holds none.
pub open spec fn segment_start(path: Seq<char>) -> int
    decreases path.len(),
{
    if path.len() == 0 {
        0
    } else if path.last() == '/' {
        path.len() as int
    } else {
        segment_start(path.drop_last())
    }
}

/// What follows the last `/` of `path`; the whole of it where it holds none.
pub open spec fn last_segment(path: Seq<char>) -> Seq<char> {
    path.subrange(segment_start(path), path.len() as int)
}

/// Whether two texts hold the same characters.
pub fn text_eq(a: &str, b: &str) -> (same: bool)
    ensures
        same == (a@ == b@),
{
    let x = a.as_bytes();
    let y = b.as_bytes();
    if x.len() != y.len() {
        return false;
    }
    let mut i: usize = 0;
    while i < x.len()
        invariant
            i <= x.len(),
            x.len() == y.len(),
            x@ == a.spec_bytes(),
            y@ == b.spec_bytes(),
            forall|k: int| 0 <= k < i ==> x@[k] == y@[k],
        decreases x.len() - i,
    {
        if x[i] != y[i] {
            return false;
        }
        i = i + 1;
    }
    proof {
        assert(x@ =~= y@);
        vstd::utf8::encode_utf8_decode_utf8(a@);
        vstd::utf8::encode_utf8_decode_utf8(b@);
    }
    true
}

/// Whether `path` is exactly `/`.
pub fn is_root(path: &str) -> (root: bool)
    ensures
        root == (path@ == root_path()),
{
    proof {
        reveal_strlit("/");
        assert("/"@ =~= root_path());
    }
    text_eq(path, "/")
}

/// Whether `path` begins with `/home`.
pub fn starts_with_home(path: &str) -> (home: bool)
    ensures
        home == home_prefix().is_prefix_of(path@),
{
    let it = path.chars();
    let mut matched: usize = 0;
    let mut ok: bool = true;
    for c in iter: it
        invariant
            iter.seq() == path@,
            matched <= 5,
            matched <= iter.index(),
            ok ==> matched == if iter.index() < 5 { iter.index() } else { 5 },
            ok ==> forall|k: int| 0 <= k < matched ==> path@[k] == home_prefix()[k],
            !ok ==> !home_prefix().is_prefix_of(path@),
    {
        if ok && matched < 5 {
            let want: char = if matched == 0 {
                '/'
            } else if matched == 1 {
                'h'
            } else if matched == 2 {
                'o'
            } else if matched == 3 {
                'm'
            } else {
                'e'
            };
            if c == want {
                matched = matched + 1;
            } else {
                ok = false;
                assert(path@[matched as int] != home_prefix()[matched as int]);
            }
        }
    }
    let home: bool = ok && matched == 5;
    proof {
        if home {
            assert(path@.subrange(0, 5) =~= home_prefix());
        }
    }
    home
}

/// The last segment of `path`, as a text of its own.
pub fn final_segment(path: &str) -> (segment: String)
    ensures
        segment@ == last_segment(path@),
{
    let it = path.chars();
    let mut start: usize = 0;
    let mut seen: usize = 0;
    let total: usize = path.unicode_len();
    for c in iter: it
        invariant
            iter.seq() == path@,
            total == path@.len(),
            seen == iter.index(),
            start == segment_start(path@.take(seen as int)),
            start <= seen,
    {
        proof {
            let before = path@.take(seen as int);
            let after = path@.take(seen as int + 1);
            assert(after.drop_last() =~= before);
            assert(after.last() == c);
        }
        seen = seen + 1;
        if c == '/' {
            start = seen;
        }
    }
    proof {
        assert(path@.take(seen as int) =~= path@);
    }
    path.substring_char(start, total).to_owned()
}

} // verus!
