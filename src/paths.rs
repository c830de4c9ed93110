use vstd::prelude::*;
use vstd::string::*;

verus! {

/// The path `b` placed below `a`: the two are joined with one `/`, which is
/// left out where `a` is empty or already ends in `/`.
pub open spec fn join(a: Seq<char>, b: Seq<char>) -> Seq<char> {
    if a.len() == 0 {
        b
    } else if a[a.len() - 1] == '/' {
        a + b
    } else {
        a + seq!['/'] + b
    }
}

/// Joins `b` below `a` (see [`join`]).
pub fn join_path(a: &str, b: &str) -> (r: String)
    ensures
        r@ == join(a@, b@),
{
    let n = a.unicode_len();
    let mut r = String::from_str(a);
    if n == 0 {
        return String::from_str(b);
    }
    if a.get_char(n - 1) != '/' {
        proof {
            reveal_strlit("/");
        }
        r.append("/");
    }
    r.append(b);
    r
}

} // verus!
