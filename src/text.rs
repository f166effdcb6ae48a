//! Multi-line strings measured in terminal columns.
use unicode_width::UnicodeWidthStr;
use vstd::prelude::*;

use crate::space::Size2D;

verus! {

/// The lines `str::lines` splits a string into.
pub uninterp spec fn lines_of(s: Seq<char>) -> Seq<Seq<char>>;

/// The columns a string occupies on a terminal, as unicode-width measures it.
pub uninterp spec fn display_width(s: Seq<char>) -> nat;

/// Relies on `str::lines`: the lines of `content`, split at `\n` or `\r\n`
/// and without their terminators; the result depends on the characters alone.
#[verifier::external_body]
fn split_lines<'a>(content: &'a str) -> (r: Vec<&'a str>)
    ensures
        r@.len() == lines_of(content@).len(),
        forall|i: int| 0 <= i < r@.len() ==> (#[trigger] r@[i])@ == lines_of(content@)[i],
{
    content.lines().collect()
}

/// Relies on unicode-width's `UnicodeWidthStr::width`: the displayed width of
/// `s` in columns, a function of its characters; the empty string has none.
#[verifier::external_body]
fn str_width(s: &str) -> (r: usize)
    ensures
        r == display_width(s@),
        s@.len() == 0 ==> r == 0,
{
    s.width()
}

/// The widest of the lines, or zero without lines.
pub open spec fn max_width(lines: Seq<Seq<char>>) -> nat
    decreases lines.len(),
{
    if lines.len() == 0 {
        0
    } else {
        let rest = max_width(lines.drop_last());
        let w = display_width(lines.last());
        if w > rest {
            w
        } else {
            rest
        }
    }
}

/// Every line fits a `u16` count of columns, and so does the number of lines.
pub open spec fn measurable(lines: Seq<Seq<char>>) -> bool {
    &&& lines.len() <= u16::MAX
    &&& forall|i: int| 0 <= i < lines.len() ==> display_width(#[trigger] lines[i]) <= u16::MAX
}

proof fn lemma_max_width_bound(lines: Seq<Seq<char>>)
    requires
        forall|i: int| 0 <= i < lines.len() ==> display_width(#[trigger] lines[i]) <= u16::MAX,
    ensures
        max_width(lines) <= u16::MAX,
    decreases lines.len(),
{
    if lines.len() > 0 {
        assert forall|i: int| 0 <= i < lines.drop_last().len() implies display_width(
            #[trigger] lines.drop_last()[i],
        ) <= u16::MAX by {
            assert(lines.drop_last()[i] == lines[i]);
        }
        lemma_max_width_bound(lines.drop_last());
        assert(lines.last() == lines[lines.len() - 1]);
    }
}

/// A string cut into lines, with the size of the rectangle it covers.
#[derive(Debug, Clone)]
pub struct DrawableString<'a> {
    pub lines: Vec<&'a str>,
    pub size: Size2D,
}

impl<'a> DrawableString<'a> {
    /// The lines of `content` and their extent: as wide as the widest line,
    /// one row per line.
    pub fn new(content: &'a str) -> (r: DrawableString<'a>)
        requires
            measurable(lines_of(content@)),
        ensures
            r.lines@.len() == lines_of(content@).len(),
            forall|i: int| 0 <= i < r.lines@.len() ==> (#[trigger] r.lines@[i])@ == lines_of(content@)[i],
            r.size.y == lines_of(content@).len(),
            r.size.x == max_width(lines_of(content@)),
    {
        let lines = split_lines(content);
        let ghost all = lines_of(content@);
        let mut width: u16 = 0;
        let mut k: usize = 0;
        while k < lines.len()
            invariant
                k <= lines@.len(),
                lines@.len() == all.len(),
                forall|i: int| 0 <= i < lines@.len() ==> (#[trigger] lines@[i])@ == all[i],
                measurable(all),
                width == max_width(all.take(k as int)),
            decreases lines@.len() - k,
        {
            let w = str_width(lines[k]);
            proof {
                assert(all.take(k + 1).drop_last() =~= all.take(k as int));
                assert(all.take(k + 1).last() == all[k as int]);
                assert(lines@[k as int]@ == all[k as int]);
            }
            if w > width as usize {
                width = w as u16;
            }
            k = k + 1;
        }
        assert(all.take(all.len() as int) =~= all);
        let height = lines.len() as u16;
        DrawableString { lines, size: Size2D { x: width, y: height } }
    }

    /// The lines and extent of `content`, or `None` when it has more lines, or
    /// a wider line, than a `u16` counts.
    pub fn try_new(content: &'a str) -> (r: Option<DrawableString<'a>>)
        ensures
            r is Some <==> measurable(lines_of(content@)),
            r is Some ==> r->0.size.y == lines_of(content@).len() && r->0.size.x == max_width(lines_of(content@)),
            r is Some ==> r->0.lines@.len() == lines_of(content@).len(),
            r is Some ==> forall|i: int|
                0 <= i < r->0.lines@.len() ==> (#[trigger] r->0.lines@[i])@ == lines_of(content@)[i],
    {
        let lines = split_lines(content);
        if lines.len() > u16::MAX as usize {
            return None;
        }
        let mut k: usize = 0;
        while k < lines.len()
            invariant
                k <= lines@.len(),
                lines@.len() == lines_of(content@).len(),
                forall|i: int| 0 <= i < lines@.len() ==> (#[trigger] lines@[i])@ == lines_of(content@)[i],
                forall|i: int| 0 <= i < k ==> display_width(#[trigger] lines_of(content@)[i]) <= u16::MAX,
            decreases lines@.len() - k,
        {
            if str_width(lines[k]) > u16::MAX as usize {
                assert(lines@[k as int]@ == lines_of(content@)[k as int]);
                return None;
            }
            assert(lines@[k as int]@ == lines_of(content@)[k as int]);
            k = k + 1;
        }
        Some(DrawableString::new(content))
    }
}

} // verus!
