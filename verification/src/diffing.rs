//! Line-level difference between two matched hunks: the diff itself comes
//! from the `similar` crate; classifying signs and assembling the rendered
//! text are verified here.

use vstd::prelude::*;
use vstd::string::StringExecFns;

use crate::strutil::push_char;

verus! {

/// How a line of a line diff relates the old text to the new text.
#[derive(Clone, Copy, Debug, PartialEq, Eq, Structural)]
pub enum DiffTag {
    Delete,
    Insert,
    Equal,
}

/// One line of a line diff: its classification and its text, the text
/// carrying its trailing newline.
pub struct DiffLine {
    pub tag: DiffTag,
    pub text: String,
}

/// The view of a diff line: its tag and its text.
pub open spec fn line_view(d: DiffLine) -> (DiffTag, Seq<char>) {
    (d.tag, d.text@)
}

/// The line diff that `similar` computes between two texts: each element
/// classifies one line as deleted (only in the old text), inserted (only in
/// the new text) or equal, in diff order.
pub uninterp spec fn line_diff_of(a: Seq<char>, b: Seq<char>) -> Seq<(DiffTag, Seq<char>)>;

/// Relies on `similar::TextDiff::from_lines` and its change iterator: the
/// longest-common-subsequence line diff of the two texts, one change per
/// line, each change's text being its line with a newline supplied where the
/// line lacks one.
#[verifier::external_body]
fn diff_changes(a: &str, b: &str) -> (r: Vec<DiffLine>)
    ensures
        r@.map_values(|d: DiffLine| line_view(d)) == line_diff_of(a@, b@),
{
    let diff = similar::TextDiff::from_lines(a, b);
    diff.iter_all_changes().map(
        |c| DiffLine {
            tag: match c.tag() {
                similar::ChangeTag::Delete => DiffTag::Delete,
                similar::ChangeTag::Insert => DiffTag::Insert,
                similar::ChangeTag::Equal => DiffTag::Equal,
            },
            text: c.to_string(),
        },
    ).collect()
}

/// The sign that marks a diff line: '-' deleted, '+' inserted, ' ' equal.
pub open spec fn sign_char(t: DiffTag) -> char {
    match t {
        DiffTag::Delete => '-',
        DiffTag::Insert => '+',
        DiffTag::Equal => ' ',
    }
}

/// The rendered form of a line diff: each line preceded by its sign.
pub open spec fn render_lines(cs: Seq<(DiffTag, Seq<char>)>) -> Seq<char>
    decreases cs.len(),
{
    if cs.len() == 0 {
        Seq::empty()
    } else {
        seq![sign_char(cs[0].0)] + cs[0].1 + render_lines(cs.drop_first())
    }
}

/// The rendered line diff between an old text and a new text.
pub open spec fn diff_render_spec(a: Seq<char>, b: Seq<char>) -> Seq<char> {
    render_lines(line_diff_of(a, b))
}

/// Renders the line diff of the two texts: every line of the diff preceded
/// by '-', '+' or ' ' as it stands only in the old text, only in the new
/// text, or in both.
#[verifier::loop_isolation(false)]
pub fn render_diff(a: &str, b: &str) -> (r: String)
    ensures
        r@ == diff_render_spec(a@, b@),
{
    let cs = diff_changes(a, b);
    let ghost cv = cs@.map_values(|d: DiffLine| line_view(d));
    let mut r = String::new();
    let mut i: usize = 0;
    proof {
        assert(cv.skip(0) =~= cv);
    }
    while i < cs.len()
        invariant
            i <= cs@.len(),
            cv == cs@.map_values(|d: DiffLine| line_view(d)),
            cv == line_diff_of(a@, b@),
            r@ + render_lines(cv.skip(i as int)) == render_lines(cv),
        decreases cs@.len() - i,
    {
        let ghost r_b = r@;
        let c = &cs[i];
        let sign: char = match c.tag {
            DiffTag::Delete => '-',
            DiffTag::Insert => '+',
            DiffTag::Equal => ' ',
        };
        push_char(&mut r, sign);
        r.append(c.text.as_str());
        proof {
            assert(cv.skip(i as int)[0] == line_view(cs@[i as int]));
            assert(cv.skip(i as int).drop_first() =~= cv.skip(i + 1));
            assert(sign == sign_char(cv.skip(i as int)[0].0));
            assert(r@ + render_lines(cv.skip(i + 1)) =~= r_b + render_lines(cv.skip(i as int)));
        }
        i = i + 1;
    }
    proof {
        assert(cv.skip(cs@.len() as int) =~= Seq::<(DiffTag, Seq<char>)>::empty());
        assert(r@ + render_lines(cv.skip(cs@.len() as int)) =~= r@);
    }
    r
}

} // verus!
