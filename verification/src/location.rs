//! The location resolver: derives a `(project, folder)` identity from a
//! working-directory path, against the fixed convention of a `Projects/`
//! root segment followed by the project name and an optional folder path.
//! Matching is purely syntactic over forward-slash-normalized bytes; the
//! filesystem is never touched.

use vstd::prelude::*;
use crate::bytes::copy_bytes;

verus! {

/// The forward-slash separator byte (`/`).
pub const SLASH: u8 = 47;

/// The backslash separator byte (`\`).
pub const BACKSLASH: u8 = 92;

/// The identity every store access is scoped to: the owning project and,
/// when the caller stands below the project root, the folder inside it.
pub struct LocationIdentity {
    pub project: Vec<u8>,
    pub folder: Option<Vec<u8>>,
}

/// The mathematical shape of a location identity.
pub ghost struct LocationModel {
    pub project: Seq<u8>,
    pub folder: Option<Seq<u8>>,
}

impl View for LocationIdentity {
    type V = LocationModel;

    open spec fn view(&self) -> LocationModel {
        LocationModel {
            project: self.project@,
            folder: match self.folder {
                Some(f) => Some(f@),
                None => None,
            },
        }
    }
}

/// The root segment the convention expects, slash included.
pub open spec fn root_marker() -> Seq<u8> {
    seq![80u8, 114u8, 111u8, 106u8, 101u8, 99u8, 116u8, 115u8, 47u8]
}

/// The path with every backslash separator turned into a forward slash.
pub open spec fn normalized(s: Seq<u8>) -> Seq<u8> {
    Seq::new(
        s.len(),
        |i: int|
            if s[i] == BACKSLASH {
                SLASH
            } else {
                s[i]
            },
    )
}

/// The root segment occurs at position `i`.
pub open spec fn marker_at(s: Seq<u8>, i: int) -> bool {
    0 <= i && i + 9 <= s.len() && s.subrange(i, i + 9) == root_marker()
}

/// The first position at or after `i` where the root segment occurs.
pub open spec fn first_marker_from(s: Seq<u8>, i: int) -> Option<int>
    decreases s.len() - i,
{
    if i + 9 > s.len() {
        None
    } else if marker_at(s, i) {
        Some(i)
    } else {
        first_marker_from(s, i + 1)
    }
}

/// The first position at or after `i` holding a forward slash.
pub open spec fn first_slash_from(s: Seq<u8>, i: int) -> Option<int>
    decreases s.len() - i,
{
    if i >= s.len() {
        None
    } else if s[i] == SLASH {
        Some(i)
    } else {
        first_slash_from(s, i + 1)
    }
}

/// What a normalized path resolves to: after the first occurrence of the
/// root segment, the project runs to the next slash (or to the end), and
/// whatever non-empty remainder follows that slash is the folder. A path
/// without the root segment resolves to nothing.
pub open spec fn resolve_model(s: Seq<u8>) -> Option<LocationModel> {
    match first_marker_from(s, 0) {
        None => None,
        Some(m) => {
            let rest = s.subrange(m + 9, s.len() as int);
            match first_slash_from(rest, 0) {
                None => Some(LocationModel { project: rest, folder: None }),
                Some(p) => Some(
                    LocationModel {
                        project: rest.subrange(0, p),
                        folder: if p + 1 < rest.len() {
                            Some(rest.subrange(p + 1, rest.len() as int))
                        } else {
                            None
                        },
                    },
                ),
            }
        },
    }
}

/// The path with backslash separators replaced by forward slashes.
pub fn normalize_separators(s: &[u8]) -> (r: Vec<u8>)
    ensures
        r@ == normalized(s@),
{
    let n = s.len();
    let mut r: Vec<u8> = Vec::new();
    let mut i: usize = 0;
    while i < n
        invariant
            n == s@.len(),
            i <= n,
            r@.len() == i,
            forall|j: int| 0 <= j < i ==> r@[j] == normalized(s@)[j],
        decreases n - i,
    {
        if s[i] == BACKSLASH {
            r.push(SLASH);
        } else {
            r.push(s[i]);
        }
        i = i + 1;
    }
    assert(r@ =~= normalized(s@));
    r
}

/// The root segment compared byte for byte at position `i`.
fn marker_check(s: &[u8], i: usize) -> (r: bool)
    requires
        i + 9 <= s@.len(),
    ensures
        r == marker_at(s@, i as int),
{
    let r = s[i] == 80 && s[i + 1] == 114 && s[i + 2] == 111 && s[i + 3] == 106 && s[i + 4]
        == 101 && s[i + 5] == 99 && s[i + 6] == 116 && s[i + 7] == 115 && s[i + 8] == 47;
    proof {
        if r {
            assert(s@.subrange(i as int, i as int + 9) =~= root_marker());
        } else {
            if s@.subrange(i as int, i as int + 9) == root_marker() {
                assert(s@[i as int] == root_marker()[0]);
                assert(s@[i as int + 1] == root_marker()[1]);
                assert(s@[i as int + 2] == root_marker()[2]);
                assert(s@[i as int + 3] == root_marker()[3]);
                assert(s@[i as int + 4] == root_marker()[4]);
                assert(s@[i as int + 5] == root_marker()[5]);
                assert(s@[i as int + 6] == root_marker()[6]);
                assert(s@[i as int + 7] == root_marker()[7]);
                assert(s@[i as int + 8] == root_marker()[8]);
            }
        }
    }
    r
}

/// The first occurrence of the root segment in the path.
fn find_marker(s: &[u8]) -> (r: Option<usize>)
    ensures
        match r {
            Some(m) => first_marker_from(s@, 0) == Some(m as int),
            None => first_marker_from(s@, 0) is None,
        },
{
    let n = s.len();
    if n < 9 {
        return None;
    }
    let mut i: usize = 0;
    while i <= n - 9
        invariant
            n == s@.len(),
            9 <= n,
            i <= n - 8,
            first_marker_from(s@, 0) == first_marker_from(s@, i as int),
        decreases n - i,
    {
        if marker_check(s, i) {
            return Some(i);
        }
        i = i + 1;
    }
    None
}

/// A found first marker position lies within the path and holds the root
/// segment.
proof fn lemma_first_marker_at(s: Seq<u8>, i: int, m: int)
    requires
        first_marker_from(s, i) == Some(m),
    ensures
        i <= m,
        marker_at(s, m),
        m + 9 <= s.len(),
    decreases s.len() - i,
{
    if i + 9 > s.len() {
    } else if marker_at(s, i) {
    } else {
        lemma_first_marker_at(s, i + 1, m);
    }
}

/// A found first slash position lies within the path and holds a slash.
proof fn lemma_first_slash_at(s: Seq<u8>, i: int, p: int)
    requires
        first_slash_from(s, i) == Some(p),
    ensures
        i <= p,
        p < s.len(),
        s[p] == SLASH,
    decreases s.len() - i,
{
    if i >= s.len() {
    } else if s[i] == SLASH {
    } else {
        lemma_first_slash_at(s, i + 1, p);
    }
}

/// The first forward slash in the path.
fn find_slash(s: &[u8]) -> (r: Option<usize>)
    ensures
        match r {
            Some(p) => first_slash_from(s@, 0) == Some(p as int),
            None => first_slash_from(s@, 0) is None,
        },
{
    let n = s.len();
    let mut i: usize = 0;
    while i < n
        invariant
            n == s@.len(),
            i <= n,
            first_slash_from(s@, 0) == first_slash_from(s@, i as int),
        decreases n - i,
    {
        if s[i] == SLASH {
            return Some(i);
        }
        i = i + 1;
    }
    None
}

/// Derives the `(project, folder)` identity from a working-directory path,
/// or nothing when the path does not contain the expected root segment.
pub fn resolve(cwd: &Vec<u8>) -> (r: Option<LocationIdentity>)
    ensures
        match r {
            Some(loc) => resolve_model(normalized(cwd@)) == Some(loc@),
            None => resolve_model(normalized(cwd@)) is None,
        },
{
    let norm = normalize_separators(cwd.as_slice());
    let m = match find_marker(norm.as_slice()) {
        Some(m) => m,
        None => return None,
    };
    proof {
        lemma_first_marker_at(norm@, 0, m as int);
    }
    let nlen = norm.len();
    assert(m + 9 <= nlen);
    let rest = copy_bytes(vstd::slice::slice_subrange(norm.as_slice(), m + 9, nlen));
    let ghost rest_spec = normalized(cwd@).subrange(m + 9, normalized(cwd@).len() as int);
    assert(rest@ == rest_spec);
    match find_slash(rest.as_slice()) {
        None => {
            let loc = LocationIdentity { project: rest, folder: None };
            Some(loc)
        },
        Some(p) => {
            proof {
                lemma_first_slash_at(rest@, 0, p as int);
            }
            let project = copy_bytes(vstd::slice::slice_subrange(rest.as_slice(), 0, p));
            let folder = if p + 1 < rest.len() {
                Some(copy_bytes(vstd::slice::slice_subrange(rest.as_slice(), p + 1, rest.len())))
            } else {
                None
            };
            let loc = LocationIdentity { project, folder };
            Some(loc)
        },
    }
}

} // verus!
