//! Paths as the library sees them: strings with `/` between their parts.

use vstd::prelude::*;
use vstd::string::*;

verus! {

/// The last part of a path: what follows its last `/`, or the whole path
/// when it holds none.
pub open spec fn file_name_of(path: Seq<char>) -> Seq<char> {
    match path.index_of_last('/') {
        Some(i) => path.skip(i + 1),
        None => path,
    }
}

/// The last part of `path`.
pub fn file_name(path: &str) -> (r: String)
    ensures
        r@ == file_name_of(path@),
{
    let count: usize = path.unicode_len();
    let mut start: usize = 0;
    let mut i: usize = 0;
    while i < count
        invariant
            i <= count,
            count == path@.len(),
            start <= i,
            start == 0 ==> forall|j: int| 0 <= j < i ==> path@[j] != '/',
            start > 0 ==> path@[start - 1] == '/' && forall|j: int|
                start <= j < i ==> path@[j] != '/',
        decreases count - i,
    {
        if path.get_char(i) == '/' {
            start = i + 1;
        }
        i = i + 1;
    }
    proof {
        path@.index_of_last_ensures('/');
        if start == 0 {
            assert(path@.index_of_last('/') is None);
        } else {
            assert(path@.contains('/'));
            assert(path@.index_of_last('/') == Some(start - 1));
        }
        assert(path@.subrange(start as int, count as int) =~= path@.skip(start as int));
    }
    path.substring_char(start, count).to_owned()
}

} // verus!
