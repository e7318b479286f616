//! Where the files that the server reads and writes lie: under one directory,
//! named by what the request captured. The name comes from the network and is
//! not trusted.

use crate::bytes::{DOT, SLASH};
use vstd::prelude::*;

verus! {

/// Whether a segment `..` stands in `name` at position `i`: two dots between
/// slashes or the ends of the name.
pub open spec fn parent_at(name: Seq<u8>, i: int) -> bool {
    &&& 0 <= i
    &&& i + 2 <= name.len()
    &&& name[i] == DOT
    &&& name[i + 1] == DOT
    &&& (i == 0 || name[i - 1] == SLASH)
    &&& (i + 2 == name.len() || name[i + 2] == SLASH)
}

/// Whether `name` could lead out of the directory it is joined to: it begins
/// at the root of the file system, or one of its segments is `..`.
pub open spec fn escapes(name: Seq<u8>) -> bool {
    (name.len() > 0 && name[0] == SLASH) || exists|i: int| parent_at(name, i)
}

/// `root` and `name` as one path, with one separator between them unless
/// `root` is empty or brings its own.
pub open spec fn joined(root: Seq<u8>, name: Seq<u8>) -> Seq<u8> {
    if root.len() == 0 || root.last() == SLASH {
        root + name
    } else {
        root + seq![SLASH] + name
    }
}

/// The path of the file `name` under `root`; none for a name that escapes.
pub open spec fn located(root: Seq<u8>, name: Seq<u8>) -> Option<Seq<u8>> {
    if escapes(name) {
        None
    } else {
        Some(joined(root, name))
    }
}

/// Whether `name` could lead out of the directory it is joined to.
pub fn is_escape(name: &[u8]) -> (r: bool)
    ensures
        r == escapes(name@),
{
    let n = name.len();
    if n > 0 && name[0] == SLASH {
        return true;
    }
    if n < 2 {
        return false;
    }
    let mut i: usize = 0;
    while i <= n - 2
        invariant
            n == name@.len(),
            2 <= n,
            i <= n - 1,
            forall|j: int| 0 <= j < i ==> !parent_at(name@, j),
        decreases n - i,
    {
        if name[i] == DOT && name[i + 1] == DOT && (i == 0 || name[i - 1] == SLASH) && (i + 2 == n
            || name[i + 2] == SLASH) {
            assert(parent_at(name@, i as int));
            return true;
        }
        i += 1;
    }
    false
}

/// The path of the file `name` under `root`, or none where `name` escapes.
pub fn locate(root: &[u8], name: &[u8]) -> (r: Option<Vec<u8>>)
    ensures
        match r {
            Some(p) => located(root@, name@) == Some(p@),
            None => located(root@, name@) is None,
        },
{
    if is_escape(name) {
        return None;
    }
    let mut path: Vec<u8> = Vec::new();
    path.extend_from_slice(root);
    assert(path@ =~= root@);
    let k = root.len();
    if k > 0 && root[k - 1] != SLASH {
        path.push(SLASH);
    }
    path.extend_from_slice(name);
    assert(path@ =~= joined(root@, name@));
    Some(path)
}

/// A located file lies under the root: its path begins with the root, and
/// no segment after the root is `..`.
pub proof fn law_located_under_root(root: Seq<u8>, name: Seq<u8>)
    ensures
        match located(root, name) {
            Some(p) => root.is_prefix_of(p) && forall|i: int|
                root.len() <= i ==> !parent_at(p, i),
            None => true,
        },
{
    if !escapes(name) {
        let p = joined(root, name);
        let off = p.len() - name.len();
        assert(root =~= p.subrange(0, root.len() as int));
        assert forall|i: int| root.len() <= i implies !parent_at(p, i) by {
            if parent_at(p, i) {
                if i < off {
                    assert(i == root.len() && off == root.len() + 1);
                    assert(p[i] == SLASH);
                } else {
                    let j = i - off;
                    assert(p[i] == name[j]);
                    assert(p[i + 1] == name[j + 1]);
                    if j + 2 < name.len() {
                        assert(p[i + 2] == name[j + 2]);
                    }
                    if j > 0 {
                        assert(p[i - 1] == name[j - 1]);
                    }
                    assert(parent_at(name, j));
                }
            }
        }
    }
}

} // verus!
