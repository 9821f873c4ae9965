//! Matching process paths against the configured executable names.
//!
//! Paths and names are compared as bytes: a name in the target set is its
//! UTF-8 encoding. Paths are read as Windows reads them: `\` and `/` both
//! separate components, a leading drive such as `C:` is not a component,
//! empty and `.` components are skipped, and a path whose last component is
//! `..` names no executable. There is no case folding and no extension
//! handling.

use vstd::prelude::*;
use vstd::string::StrSliceExecFns;
use vstd::string::StringSliceAdditionalSpecFns;
use vstd::utf8::encode_utf8;

verus! {

pub open spec fn is_separator(b: u8) -> bool {
    b == 0x5c || b == 0x2f
}

/// Where the components of `path` begin: after a drive such as `C:`, if
/// the path starts with one.
pub open spec fn body_start(path: Seq<u8>) -> int {
    if path.len() >= 2 && is_drive_letter(path[0]) && path[1] == 0x3a {
        2
    } else {
        0
    }
}

pub open spec fn is_drive_letter(b: u8) -> bool {
    (0x41 <= b <= 0x5a) || (0x61 <= b <= 0x7a)
}

/// The index just past the last separator in `path[lo..end]`, or `lo` where
/// there is none.
pub open spec fn segment_start(path: Seq<u8>, lo: int, end: int) -> int
    decreases end - lo,
{
    if end <= lo {
        lo
    } else if is_separator(path[end - 1]) {
        end
    } else {
        segment_start(path, lo, end - 1)
    }
}

proof fn lemma_segment_start_bounds(path: Seq<u8>, lo: int, end: int)
    requires
        lo <= end,
    ensures
        lo <= segment_start(path, lo, end) <= end,
    decreases end - lo,
{
    if end > lo && !is_separator(path[end - 1]) {
        lemma_segment_start_bounds(path, lo, end - 1);
    }
}

pub open spec fn is_dot(c: Seq<u8>) -> bool {
    c == seq![0x2eu8]
}

pub open spec fn is_dot_dot(c: Seq<u8>) -> bool {
    c == seq![0x2eu8, 0x2eu8]
}

/// The last component of `path[lo..end]` that is neither empty nor `.`.
pub open spec fn last_segment(path: Seq<u8>, lo: int, end: int) -> Option<Seq<u8>>
    decreases end - lo,
{
    if end <= lo {
        None
    } else {
        let s = segment_start(path, lo, end);
        let c = path.subrange(s, end);
        if c.len() == 0 || is_dot(c) {
            if lo < s && s <= end {
                last_segment(path, lo, s - 1)
            } else {
                None
            }
        } else {
            Some(c)
        }
    }
}

/// The executable name that a path ends in, if it ends in one.
pub open spec fn final_component(path: Seq<u8>) -> Option<Seq<u8>> {
    match last_segment(path, body_start(path), path.len() as int) {
        Some(c) => if is_dot_dot(c) {
            None
        } else {
            Some(c)
        },
        None => None,
    }
}

/// Whether the final component of `path` is one of `targets`.
pub open spec fn names_target(targets: Seq<Seq<u8>>, path: Seq<u8>) -> bool {
    match final_component(path) {
        Some(c) => targets.contains(c),
        None => false,
    }
}

/// The configured executable names, each held as its UTF-8 bytes.
pub struct TargetSet {
    names: Vec<Vec<u8>>,
}

impl View for TargetSet {
    type V = Seq<Seq<u8>>;

    closed spec fn view(&self) -> Seq<Seq<u8>> {
        self.names@.map_values(|n: Vec<u8>| n@)
    }
}

fn bytes_equal(a: &[u8], b: &[u8]) -> (r: bool)
    ensures
        r == (a@ == b@),
{
    if a.len() != b.len() {
        return false;
    }
    let mut i: usize = 0;
    while i < a.len()
        invariant
            a@.len() == b@.len(),
            i <= a@.len(),
            forall|j: int| 0 <= j < i ==> a@[j] == b@[j],
        decreases a@.len() - i,
    {
        if a[i] != b[i] {
            return false;
        }
        i = i + 1;
    }
    assert(a@ =~= b@);
    true
}

/// The index just past the last separator in `path[lo..end]`, or `lo`.
fn find_segment_start(path: &[u8], lo: usize, end: usize) -> (r: usize)
    requires
        lo <= end <= path@.len(),
    ensures
        r == segment_start(path@, lo as int, end as int),
{
    let mut i: usize = end;
    while i > lo
        invariant
            lo <= i <= end,
            end <= path@.len(),
            segment_start(path@, lo as int, end as int) == segment_start(
                path@,
                lo as int,
                i as int,
            ),
        decreases i,
    {
        if path[i - 1] == 0x5c || path[i - 1] == 0x2f {
            return i;
        }
        i = i - 1;
    }
    lo
}

/// Where the final component of `path` lies, if it has one.
fn find_final_component(path: &[u8]) -> (r: Option<(usize, usize)>)
    ensures
        match r {
            Some((s, e)) => s <= e <= path@.len() && final_component(path@) == Some(
                path@.subrange(s as int, e as int),
            ),
            None => final_component(path@) is None,
        },
{
    let lo: usize = if path.len() >= 2 && ((0x41 <= path[0] && path[0] <= 0x5a) || (0x61
        <= path[0] && path[0] <= 0x7a)) && path[1] == 0x3a {
        2
    } else {
        0
    };
    let mut end: usize = path.len();
    while end > lo
        invariant
            lo == body_start(path@),
            lo <= end <= path@.len(),
            last_segment(path@, lo as int, path@.len() as int) == last_segment(
                path@,
                lo as int,
                end as int,
            ),
        decreases end,
    {
        let s = find_segment_start(path, lo, end);
        proof {
            lemma_segment_start_bounds(path@, lo as int, end as int);
        }
        let c: &[u8] = vstd::slice::slice_subrange(path, s, end);
        if c.len() == 0 || (c.len() == 1 && c[0] == 0x2e) {
            assert(c@.len() == 1 ==> c@ =~= seq![0x2eu8]);
            if s > lo {
                end = s - 1;
            } else {
                return None;
            }
        } else {
            assert(c@.len() == 1 ==> !is_dot(c@));
            assert(c@.len() != 1 ==> !is_dot(c@));
            if c.len() == 2 && c[0] == 0x2e && c[1] == 0x2e {
                assert(c@ =~= seq![0x2eu8, 0x2eu8]);
                return None;
            }
            assert(c@.len() == 2 ==> !is_dot_dot(c@));
            assert(c@.len() != 2 ==> !is_dot_dot(c@));
            return Some((s, end));
        }
    }
    None
}

impl TargetSet {
    /// The target set made of `targets`, in the same order.
    pub fn new(targets: &Vec<String>) -> (r: TargetSet)
        ensures
            r@ == targets@.map_values(|s: String| encode_utf8(s@)),
    {
        let mut names: Vec<Vec<u8>> = Vec::new();
        let mut i: usize = 0;
        while i < targets.len()
            invariant
                i <= targets@.len(),
                names@.len() == i,
                forall|j: int| 0 <= j < i ==> #[trigger] names@[j]@ == encode_utf8(targets@[j]@),
            decreases targets@.len() - i,
        {
            let s: &str = targets[i].as_str();
            names.push(s.as_bytes_vec());
            i = i + 1;
        }
        let r = TargetSet { names };
        assert(r@ =~= targets@.map_values(|s: String| encode_utf8(s@)));
        r
    }

    /// Whether the final component of `name` is one of the targets, byte for
    /// byte.
    pub fn matches(&self, name: &str) -> (r: bool)
        ensures
            r == names_target(self@, name.spec_bytes()),
    {
        let path: &[u8] = name.as_bytes();
        let (start, end) = match find_final_component(path) {
            Some(range) => range,
            None => return false,
        };
        let c: &[u8] = vstd::slice::slice_subrange(path, start, end);
        assert(self@.len() == self.names@.len());
        let mut i: usize = 0;
        while i < self.names.len()
            invariant
                i <= self.names@.len(),
                self@.len() == self.names@.len(),
                path@ == name.spec_bytes(),
                final_component(path@) == Some(c@),
                forall|j: int| 0 <= j < i ==> self@[j] != c@,
            decreases self.names@.len() - i,
        {
            if bytes_equal(self.names[i].as_slice(), c) {
                assert(self@[i as int] == c@);
                assert(self@.contains(c@));
                return true;
            }
            i = i + 1;
        }
        false
    }
}

} // verus!
