//! Breadcrumb navigation over a slash-separated path.
//!
//! A path such as `dir/sub/file` is walked one component at a time; each
//! step yields the component's name together with the path prefix that
//! links to it. The walk behaves like splitting on `/`: every component
//! appears, empty ones included, and an empty path yields nothing at all.

use vstd::prelude::*;
use vstd::string::StrSliceExecFns;

verus! {

/// Position of the first `/` in `s` at or after `from`, or the length of
/// `s` when no slash follows.
pub open spec fn spec_next_slash(s: Seq<char>, from: int) -> int
    decreases s.len() - from,
{
    if from >= s.len() {
        s.len() as int
    } else if s[from] == '/' {
        from
    } else {
        spec_next_slash(s, from + 1)
    }
}

/// Number of slashes in `s` at positions in `[a, b)`.
pub open spec fn spec_slash_between(s: Seq<char>, a: int, b: int) -> int
    decreases b - a,
{
    if a >= b {
        0
    } else {
        (if 0 <= a < s.len() && s[a] == '/' {
            1int
        } else {
            0int
        }) + spec_slash_between(s, a + 1, b)
    }
}

/// The slash count over `[a, b)` is at most the width of the range.
proof fn lemma_slash_between_bound(s: Seq<char>, a: int, b: int)
    requires
        a <= b,
    ensures
        0 <= spec_slash_between(s, a, b) <= b - a,
    decreases b - a,
{
    if a < b {
        lemma_slash_between_bound(s, a + 1, b);
    }
}

/// Extending the range by one position on the right adds that position's
/// contribution.
proof fn lemma_slash_between_snoc(s: Seq<char>, a: int, b: int)
    requires
        a <= b,
    ensures
        spec_slash_between(s, a, b + 1) == spec_slash_between(s, a, b) + (
        if 0 <= b < s.len() && s[b] == '/' {
            1int
        } else {
            0int
        }),
    decreases b - a,
{
    if a < b {
        lemma_slash_between_snoc(s, a + 1, b);
    } else {
        assert(spec_slash_between(s, b + 1, b + 1) == 0);
    }
}

/// A slash-separated path, ready to be walked as breadcrumbs.
#[derive(Debug, Clone, Copy)]
pub struct Breadcrumbs<'a>(pub &'a str);

/// Walks a slash-separated path one component at a time.
#[derive(Debug, Clone, Copy)]
pub struct BreadcrumbsIterator<'a> {
    whole_path: &'a str,
    index: Option<usize>,
}

/// One component of the path: its name and the path prefix linking to it.
#[derive(Debug, Clone, Copy)]
pub struct Breadcrumb<'a> {
    pub name: &'a str,
    pub link_url: &'a str,
}

impl<'a> BreadcrumbsIterator<'a> {
    /// The path being walked.
    pub closed spec fn spec_path(self) -> Seq<char> {
        self.whole_path@
    }

    /// Where the next component starts, or nothing when the walk is over.
    pub closed spec fn spec_index(self) -> Option<usize> {
        self.index
    }

    /// The walk's invariant: the position stands inside the path.
    pub closed spec fn wf(self) -> bool {
        match self.index {
            Option::Some(i) => i <= self.whole_path@.len(),
            Option::None => true,
        }
    }

    /// Starts walking `path`: at its first character, or already finished
    /// when the path is empty.
    pub fn new(path: &'a str) -> (r: BreadcrumbsIterator<'a>)
        ensures
            r.wf(),
            r.spec_path() == path@,
            path@.len() == 0 ==> r.spec_index() is None,
            path@.len() > 0 ==> r.spec_index() == Option::Some(0usize),
    {
        if path.is_empty() {
            BreadcrumbsIterator { whole_path: path, index: Option::None }
        } else {
            BreadcrumbsIterator { whole_path: path, index: Option::Some(0) }
        }
    }

    /// The next component: its name runs to the next slash (or the path's
    /// end), its link is the whole path up to there, and the walk resumes
    /// after the slash. Yields nothing once the walk is over.
    pub fn next(&mut self) -> (r: Option<Breadcrumb<'a>>)
        requires
            old(self).wf(),
        ensures
            final(self).wf(),
            final(self).spec_path() == old(self).spec_path(),
            match old(self).spec_index() {
                Option::None => r is None && final(self).spec_index() is None,
                Option::Some(i) => {
                    let s = old(self).spec_path();
                    let j = spec_next_slash(s, i as int);
                    &&& r matches Some(crumb) && crumb.name@ == s.subrange(i as int, j)
                        && crumb.link_url@ == s.subrange(0, j)
                    &&& final(self).spec_index() == (if j < s.len() {
                        Option::Some((j + 1) as usize)
                    } else {
                        Option::None::<usize>
                    })
                },
            },
    {
        let start = match self.index {
            Option::None => {
                return Option::None;
            },
            Option::Some(i) => i,
        };
        let n = self.whole_path.unicode_len();
        let mut j = start;
        while j < n && self.whole_path.get_char(j) != '/'
            invariant
                start <= j <= n,
                n == self.whole_path@.len(),
                *self == *old(self),
                spec_next_slash(self.whole_path@, start as int) == spec_next_slash(
                    self.whole_path@, j as int),
            decreases n - j,
        {
            j = j + 1;
        }
        let name = self.whole_path.substring_char(start, j);
        let link = self.whole_path.substring_char(0, j);
        if j < n {
            self.index = Option::Some(j + 1);
        } else {
            self.index = Option::None;
        }
        Option::Some(Breadcrumb { name, link_url: link })
    }

    /// How many components the walk still yields: one per remaining
    /// slash, plus the final component (the count saturates at the
    /// machine's integer limit).
    pub fn count(self) -> (r: usize)
        requires
            self.wf(),
        ensures
            r as int == vstd::math::min(usize::MAX as int, match self.spec_index() {
                Option::None => 0int,
                Option::Some(i) => 1 + spec_slash_between(self.spec_path(), i as int,
                    self.spec_path().len() as int),
            }),
    {
        let start = match self.index {
            Option::None => {
                return 0;
            },
            Option::Some(i) => i,
        };
        let n = self.whole_path.unicode_len();
        let mut j = start;
        let mut c: usize = 0;
        while j < n
            invariant
                start <= j <= n,
                n == self.whole_path@.len(),
                c as int == spec_slash_between(self.whole_path@, start as int, j as int),
            decreases n - j,
        {
            proof {
                lemma_slash_between_bound(self.whole_path@, start as int, j as int);
                lemma_slash_between_snoc(self.whole_path@, start as int, j as int);
            }
            if self.whole_path.get_char(j) == '/' {
                c = c + 1;
            }
            j = j + 1;
        }
        if c == usize::MAX {
            c
        } else {
            c + 1
        }
    }
}

} // verus!
