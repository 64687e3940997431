//! Pure decisions of the container metrics path: which containers the
//! configured unit-name filter keeps, and the display nickname derived from
//! a container name.

use vstd::prelude::*;

use vstd::string::StrSliceExecFns;
use vstd::string::StringExecFns;

verus! {

/// `p` is a prefix of `s`.
pub open spec fn spec_starts_with(s: Seq<char>, p: Seq<char>) -> bool {
    p.len() <= s.len() && s.take(p.len() as int) == p
}

/// `sub` occurs in `s` at position `k`.
pub open spec fn is_substring_at(s: Seq<char>, sub: Seq<char>, k: int) -> bool {
    0 <= k && k + sub.len() <= s.len() && s.subrange(k, k + sub.len()) == sub
}

/// `sub` occurs somewhere in `s`.
pub open spec fn contains_seq(s: Seq<char>, sub: Seq<char>) -> bool {
    exists|k: int| is_substring_at(s, sub, k)
}

/// An empty filter keeps every container; otherwise a container is kept
/// exactly when some configured unit name occurs in its name.
pub open spec fn spec_matches_filter(name: Seq<char>, filters: Seq<Seq<char>>) -> bool {
    filters.len() == 0 || exists|i: int|
        0 <= i < filters.len() && contains_seq(name, filters[i])
}

/// The display nickname for a container name: the generation caption and
/// the name's remainder for the two known unit prefixes, nothing otherwise.
pub open spec fn spec_nickname(name: Seq<char>) -> Option<Seq<char>> {
    if spec_starts_with(name, "3node"@) {
        Some("Creditcoin 3.0 Node "@ + name.skip("3node"@.len() as int))
    } else if spec_starts_with(name, "node"@) {
        Some("Creditcoin 2.0 Node "@ + name.skip("node"@.len() as int))
    } else {
        None
    }
}

/// Whether `p` is a prefix of `s`.
fn starts_with(s: &str, p: &str) -> (r: bool)
    ensures
        r == spec_starts_with(s@, p@),
{
    let n: usize = s.unicode_len();
    let m: usize = p.unicode_len();
    if m > n {
        return false;
    }
    let mut i: usize = 0;
    while i < m
        invariant
            i <= m,
            m <= n,
            s@.len() == n as nat,
            p@.len() == m as nat,
            forall|j: int| 0 <= j < i ==> s@[j] == p@[j],
        decreases m - i,
    {
        if s.get_char(i) != p.get_char(i) {
            proof {
                assert(s@.take(m as int)[i as int] != p@[i as int]);
            }
            return false;
        }
        i = i + 1;
    }
    proof {
        assert(s@.take(m as int) =~= p@);
    }
    true
}

/// Whether `sub` occurs in `s`.
fn contains_str(s: &str, sub: &str) -> (r: bool)
    ensures
        r == contains_seq(s@, sub@),
{
    let n: usize = s.unicode_len();
    let m: usize = sub.unicode_len();
    if m > n {
        proof {
            assert(forall|k: int| !is_substring_at(s@, sub@, k));
        }
        return false;
    }
    let mut k: usize = 0;
    while k <= n - m
        invariant
            m <= n,
            s@.len() == n as nat,
            sub@.len() == m as nat,
            k <= n - m + 1,
            forall|q: int| 0 <= q < k ==> !is_substring_at(s@, sub@, q),
        decreases n - m + 1 - k,
    {
        let mut i: usize = 0;
        let mut matches_here = true;
        while i < m && matches_here
            invariant
                i <= m,
                m <= n,
                k <= n - m,
                s@.len() == n as nat,
                sub@.len() == m as nat,
                matches_here ==> forall|j: int| 0 <= j < i ==> s@[k + j] == sub@[j],
                !matches_here ==> exists|j: int| 0 <= j < m && s@[k + j] != sub@[j],
            decreases m - i + (if matches_here { 1int } else { 0int }),
        {
            if s.get_char(k + i) != sub.get_char(i) {
                matches_here = false;
            } else {
                i = i + 1;
            }
        }
        if matches_here {
            proof {
                assert(s@.subrange(k as int, k + m) =~= sub@);
                assert(is_substring_at(s@, sub@, k as int));
            }
            return true;
        }
        proof {
            let j = choose|j: int| 0 <= j < m && s@[k + j] != sub@[j];
            assert(s@.subrange(k as int, k + m)[j] != sub@[j]);
            assert(!is_substring_at(s@, sub@, k as int));
        }
        k = k + 1;
    }
    proof {
        assert(forall|q: int| !is_substring_at(s@, sub@, q));
    }
    false
}

/// Whether the configured unit-name filter keeps a container: an empty
/// filter keeps everything, otherwise some configured name must occur in
/// the container's name.
pub fn matches_filter(name: &str, filters: &Vec<String>) -> (r: bool)
    ensures
        r == spec_matches_filter(name@, crate::strings_view(filters@)),
{
    if filters.len() == 0 {
        return true;
    }
    let mut i: usize = 0;
    while i < filters.len()
        invariant
            i <= filters@.len(),
            forall|j: int|
                0 <= j < i ==> !contains_seq(name@, crate::strings_view(filters@)[j]),
        decreases filters@.len() - i,
    {
        if contains_str(name, filters[i].as_str()) {
            proof {
                assert(contains_seq(name@, crate::strings_view(filters@)[i as int]));
            }
            return true;
        }
        i = i + 1;
    }
    false
}

/// The display nickname for a container name, if it matches one of the two
/// known unit prefixes.
pub fn container_nickname(name: &str) -> (r: Option<String>)
    ensures
        match r {
            Some(nick) => spec_nickname(name@) == Some(nick@),
            None => spec_nickname(name@) is None,
        },
{
    if starts_with(name, "3node") {
        let pl: usize = "3node".unicode_len();
        let suffix = name.substring_char(pl, name.unicode_len());
        Some(String::from_str("Creditcoin 3.0 Node ").concat(suffix))
    } else if starts_with(name, "node") {
        let pl: usize = "node".unicode_len();
        let suffix = name.substring_char(pl, name.unicode_len());
        Some(String::from_str("Creditcoin 2.0 Node ").concat(suffix))
    } else {
        None
    }
}

} // verus!
