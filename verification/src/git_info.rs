//! What is shown of a project's git checkout, and how a linked worktree is
//! recognised from the `.git` file that git writes into it.
use vstd::prelude::*;
use vstd::string::{StrSliceExecFns, StringExecFns};

use crate::text::{is_white_space, is_whitespace};

verus! {

/// The git facts shown for a project directory.
#[derive(Debug)]
pub struct GitInfo {
    pub repo_name: Option<String>,
    pub branch: Option<String>,
    pub worktree: Option<String>,
    pub is_worktree: bool,
    pub display_path: Option<String>,
}

impl Default for GitInfo {
    fn default() -> (r: Self)
        ensures
            r.repo_name is None,
            r.branch is None,
            r.worktree is None,
            !r.is_worktree,
            r.display_path is None,
    {
        GitInfo {
            repo_name: None,
            branch: None,
            worktree: None,
            is_worktree: false,
            display_path: None,
        }
    }
}

/// A text without its leading white space.
pub open spec fn trim_start(s: Seq<char>) -> Seq<char>
    decreases s.len(),
{
    if s.len() > 0 && is_white_space(s[0]) {
        trim_start(s.drop_first())
    } else {
        s
    }
}

/// A text without its trailing white space.
pub open spec fn trim_end(s: Seq<char>) -> Seq<char>
    decreases s.len(),
{
    if s.len() > 0 && is_white_space(s.last()) {
        trim_end(s.drop_last())
    } else {
        s
    }
}

/// A text without white space at either end, as `str::trim` gives it.
pub open spec fn trim(s: Seq<char>) -> Seq<char> {
    trim_end(trim_start(s))
}

proof fn lemma_trim_start(s: Seq<char>, lo: int)
    requires
        0 <= lo <= s.len(),
        forall|k: int| 0 <= k < lo ==> is_white_space(#[trigger] s[k]),
        lo == s.len() || !is_white_space(s[lo]),
    ensures
        trim_start(s) == s.subrange(lo, s.len() as int),
    decreases lo,
{
    if lo > 0 {
        let t = s.drop_first();
        assert forall|k: int| 0 <= k < lo - 1 implies is_white_space(#[trigger] t[k]) by {
            assert(t[k] == s[k + 1]);
        }
        lemma_trim_start(t, lo - 1);
        assert(t.subrange(lo - 1, t.len() as int) =~= s.subrange(lo, s.len() as int));
    } else {
        assert(s.subrange(0, s.len() as int) =~= s);
    }
}

proof fn lemma_trim_end(s: Seq<char>, hi: int)
    requires
        0 <= hi <= s.len(),
        forall|k: int| hi <= k < s.len() ==> is_white_space(#[trigger] s[k]),
        hi == 0 || !is_white_space(s[hi - 1]),
    ensures
        trim_end(s) == s.subrange(0, hi),
    decreases s.len() - hi,
{
    if hi < s.len() {
        let t = s.drop_last();
        assert forall|k: int| hi <= k < t.len() implies is_white_space(#[trigger] t[k]) by {
            assert(t[k] == s[k]);
        }
        lemma_trim_end(t, hi);
        assert(t.subrange(0, hi) =~= s.subrange(0, hi));
    } else {
        assert(s.subrange(0, hi) =~= s);
    }
}

/// Trims white space from both ends of a text.
pub fn trim_text(s: &str) -> (r: String)
    ensures
        r@ == trim(s@),
{
    let n = s.unicode_len();
    let mut lo: usize = 0;
    while lo < n && is_whitespace(s.get_char(lo))
        invariant
            n == s@.len(),
            lo <= n,
            forall|k: int| 0 <= k < lo ==> is_white_space(#[trigger] s@[k]),
        decreases n - lo,
    {
        lo = lo + 1;
    }
    let mut hi: usize = n;
    while hi > lo && is_whitespace(s.get_char(hi - 1))
        invariant
            n == s@.len(),
            lo <= hi <= n,
            forall|k: int| hi <= k < n ==> is_white_space(#[trigger] s@[k]),
        decreases hi - lo,
    {
        hi = hi - 1;
    }
    proof {
        lemma_trim_start(s@, lo as int);
        let u = s@.subrange(lo as int, n as int);
        assert forall|k: int| hi - lo <= k < u.len() implies is_white_space(#[trigger] u[k]) by {
            assert(u[k] == s@[lo + k]);
        }
        lemma_trim_end(u, hi - lo);
        assert(u.subrange(0, hi - lo) =~= s@.subrange(lo as int, hi as int));
    }
    String::from_str(s.substring_char(lo, hi))
}

/// Adds a finished segment to the segments found so far, unless it is empty or `.`.
pub open spec fn flush_segment(acc: Seq<Seq<char>>, cur: Seq<char>) -> Seq<Seq<char>> {
    if cur.len() == 0 || cur == seq!['.'] {
        acc
    } else {
        acc.push(cur)
    }
}

/// The segments finished, and the segment under way, after the first `n`
/// characters of a path.
pub open spec fn scan_segments(s: Seq<char>, n: nat) -> (Seq<Seq<char>>, Seq<char>)
    decreases n,
{
    if n == 0 {
        (Seq::empty(), Seq::empty())
    } else {
        let (acc, cur) = scan_segments(s, (n - 1) as nat);
        if s[n - 1] == '/' {
            (flush_segment(acc, cur), Seq::empty())
        } else {
            (acc, cur.push(s[n - 1]))
        }
    }
}

/// The named segments of a path: the texts between `/` separators, without empty
/// and `.` segments. These are the components of a `std::path::Path` after its
/// root, as far as their text goes.
pub open spec fn path_segments(s: Seq<char>) -> Seq<Seq<char>> {
    let (acc, cur) = scan_segments(s, s.len());
    flush_segment(acc, cur)
}

fn push_segment(acc: &mut Vec<String>, p: &str, start: usize, end: usize)
    requires
        start <= end <= p@.len(),
    ensures
        final(acc)@.map_values(|x: String| x@) == flush_segment(
            old(acc)@.map_values(|x: String| x@),
            p@.subrange(start as int, end as int),
        ),
{
    let ghost cur = p@.subrange(start as int, end as int);
    if end > start && !(end == start + 1 && p.get_char(start) == '.') {
        proof {
            assert(cur.len() == end - start);
            if end == start + 1 {
                assert(cur[0] == p@[start as int]);
                assert(cur[0] != '.');
            }
            assert(!(cur =~= seq!['.']));
        }
        let seg = String::from_str(p.substring_char(start, end));
        acc.push(seg);
        assert(acc@.map_values(|x: String| x@) =~= old(acc)@.map_values(|x: String| x@).push(cur));
    } else {
        proof {
            if end == start + 1 {
                assert(cur =~= seq!['.']);
            }
        }
    }
}

/// Splits a path into its named segments.
pub fn split_path_segments(p: &str) -> (r: Vec<String>)
    ensures
        r@.map_values(|x: String| x@) == path_segments(p@),
{
    let n = p.unicode_len();
    let mut acc: Vec<String> = Vec::new();
    let mut start: usize = 0;
    let mut i: usize = 0;
    assert(acc@.map_values(|x: String| x@) =~= Seq::<Seq<char>>::empty());
    while i < n
        invariant
            n == p@.len(),
            start <= i <= n,
            scan_segments(p@, i as nat) == (
                acc@.map_values(|x: String| x@),
                p@.subrange(start as int, i as int),
            ),
        decreases n - i,
    {
        if p.get_char(i) == '/' {
            push_segment(&mut acc, p, start, i);
            start = i + 1;
            assert(p@.subrange(start as int, (i + 1) as int) =~= Seq::<char>::empty());
        } else {
            assert(p@.subrange(start as int, (i + 1) as int) =~= p@.subrange(
                start as int,
                i as int,
            ).push(p@[i as int]));
        }
        i = i + 1;
    }
    push_segment(&mut acc, p, start, n);
    acc
}

/// Segment `k` is the first `worktrees` segment.
pub open spec fn first_worktrees_segment(cs: Seq<Seq<char>>, k: int) -> bool {
    &&& 0 <= k < cs.len()
    &&& cs[k] == "worktrees"@
    &&& forall|j: int| 0 <= j < k ==> cs[j] != "worktrees"@
}

/// The segment right after the first `worktrees` segment, if there is one.
pub open spec fn segment_after_worktrees(cs: Seq<Seq<char>>) -> Option<Seq<char>> {
    if exists|k: int| first_worktrees_segment(cs, k) {
        let k = choose|k: int| first_worktrees_segment(cs, k);
        if k + 1 < cs.len() {
            Some(cs[k + 1])
        } else {
            None
        }
    } else {
        None
    }
}

/// The name of the linked worktree that a `.git` file points to: the file reads
/// `gitdir: <repo>/.git/worktrees/<name>`, and the name is the path segment after
/// `worktrees`.
pub open spec fn linked_worktree(contents: Seq<char>) -> Option<Seq<char>> {
    if contents.len() >= 8 && contents.subrange(0, 8) == "gitdir: "@ {
        segment_after_worktrees(path_segments(trim(contents.subrange(8, contents.len() as int))))
    } else {
        None
    }
}

/// Reads the name of the linked worktree from the contents of a `.git` file.
pub fn linked_worktree_name(dot_git_contents: &str) -> (r: Option<String>)
    ensures
        match r {
            Some(name) => linked_worktree(dot_git_contents@) == Some(name@),
            None => linked_worktree(dot_git_contents@) is None,
        },
{
    let prefix = "gitdir: ";
    proof {
        reveal_strlit("gitdir: ");
    }
    let n = dot_git_contents.unicode_len();
    if n < 8 {
        return None;
    }
    let head = dot_git_contents.substring_char(0, 8);
    let mut same = true;
    let mut q: usize = 0;
    while q < 8
        invariant
            n == dot_git_contents@.len(),
            n >= 8,
            head@ == dot_git_contents@.subrange(0, 8),
            head@.len() == 8,
            prefix@ == "gitdir: "@,
            prefix@.len() == 8,
            q <= 8,
            same <==> forall|j: int| 0 <= j < q ==> head@[j] == prefix@[j],
        decreases 8 - q,
    {
        if head.get_char(q) != prefix.get_char(q) {
            same = false;
        }
        q = q + 1;
    }
    if !same {
        proof {
            if head@ == prefix@ {
                assert(same);
            }
        }
        return None;
    }
    assert(head@ =~= prefix@);
    let rest = dot_git_contents.substring_char(8, n);
    let gitdir = trim_text(rest);
    let segments = split_path_segments(gitdir.as_str());
    let ghost cs = segments@.map_values(|x: String| x@);
    let worktrees = String::from_str("worktrees");
    proof {
        reveal_strlit("worktrees");
    }
    let mut k: usize = 0;
    while k < segments.len()
        invariant
            cs == segments@.map_values(|x: String| x@),
            cs == path_segments(trim(dot_git_contents@.subrange(8, dot_git_contents@.len() as int))),
            dot_git_contents@.len() >= 8,
            dot_git_contents@.subrange(0, 8) == "gitdir: "@,
            worktrees@ == "worktrees"@,
            k <= segments@.len(),
            forall|j: int| 0 <= j < k ==> cs[j] != "worktrees"@,
        decreases segments.len() - k,
    {
        if segments[k] == worktrees {
            proof {
                assert(first_worktrees_segment(cs, k as int));
                let c = choose|c: int| first_worktrees_segment(cs, c);
                assert(c == k) by {
                    if c > k {
                        assert(cs[k as int] == "worktrees"@);
                    }
                }
            }
            if k + 1 < segments.len() {
                return Some(segments[k + 1].clone());
            } else {
                return None;
            }
        }
        k = k + 1;
    }
    proof {
        assert(!exists|c: int| first_worktrees_segment(cs, c));
    }
    None
}

} // verus!
