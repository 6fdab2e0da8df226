//! The parser: turns a raw script of `Name: Message` lines into a
//! dialogue tree, one `Line` node per input line, wrapped in a single
//! top-level `Dialogue`.

use vstd::prelude::*;
use vstd::string::StrSliceExecFns;

use crate::ast::ASTNode;
use crate::ast::NodeModel;

verus! {

broadcast use crate::ast::lemma_seq_view;

/// The number of characters of `s` before the first occurrence of `c`
/// (the whole length when `c` does not occur).
pub open spec fn upto(s: Seq<char>, c: char) -> nat
    decreases s.len(),
{
    if s.len() == 0 {
        0
    } else if s[0] == c {
        0
    } else {
        1 + upto(s.drop_first(), c)
    }
}

/// `upto` is pinned down by the usual first-occurrence description.
pub proof fn lemma_upto_is_first(s: Seq<char>, c: char, k: int)
    requires
        0 <= k <= s.len(),
        forall|t: int| 0 <= t < k ==> s[t] != c,
        k == s.len() || s[k] == c,
    ensures
        upto(s, c) == k,
    decreases s.len(),
{
    if k > 0 {
        lemma_upto_is_first(s.drop_first(), c, k - 1);
    }
}

/// Whether `c` has Unicode's `White_Space` property: the set of
/// characters that trimming a message removes.
pub open spec fn is_space(c: char) -> bool {
    ||| c == ' '
    ||| c == '\u{9}'
    ||| c == '\u{A}'
    ||| c == '\u{B}'
    ||| c == '\u{C}'
    ||| c == '\u{D}'
    ||| c == '\u{85}'
    ||| c == '\u{A0}'
    ||| c == '\u{1680}'
    ||| c == '\u{2000}'
    ||| c == '\u{2001}'
    ||| c == '\u{2002}'
    ||| c == '\u{2003}'
    ||| c == '\u{2004}'
    ||| c == '\u{2005}'
    ||| c == '\u{2006}'
    ||| c == '\u{2007}'
    ||| c == '\u{2008}'
    ||| c == '\u{2009}'
    ||| c == '\u{200A}'
    ||| c == '\u{2028}'
    ||| c == '\u{2029}'
    ||| c == '\u{202F}'
    ||| c == '\u{205F}'
    ||| c == '\u{3000}'
}

/// `s` without its leading whitespace.
pub open spec fn trim_left(s: Seq<char>) -> Seq<char>
    decreases s.len(),
{
    if s.len() > 0 && is_space(s[0]) {
        trim_left(s.drop_first())
    } else {
        s
    }
}

/// `s` without its trailing whitespace.
pub open spec fn trim_right(s: Seq<char>) -> Seq<char>
    decreases s.len(),
{
    if s.len() > 0 && is_space(s[s.len() - 1]) {
        trim_right(s.drop_last())
    } else {
        s
    }
}

/// `s` without leading or trailing whitespace.
pub open spec fn trimmed(s: Seq<char>) -> Seq<char> {
    trim_right(trim_left(s))
}

/// `trim_left` keeps exactly the suffix from the first non-space.
pub proof fn lemma_trim_left_at(s: Seq<char>, a: int)
    requires
        0 <= a <= s.len(),
        forall|t: int| 0 <= t < a ==> is_space(s[t]),
        a == s.len() || !is_space(s[a]),
    ensures
        trim_left(s) == s.skip(a),
    decreases s.len(),
{
    if a > 0 {
        lemma_trim_left_at(s.drop_first(), a - 1);
        assert(s.drop_first().skip(a - 1) =~= s.skip(a));
    } else {
        assert(s.skip(0) =~= s);
    }
}

/// `trim_right` keeps exactly the prefix up to the last non-space.
pub proof fn lemma_trim_right_at(s: Seq<char>, b: int)
    requires
        0 <= b <= s.len(),
        forall|t: int| b <= t < s.len() ==> is_space(s[t]),
        b == 0 || !is_space(s[b - 1]),
    ensures
        trim_right(s) == s.take(b),
    decreases s.len(),
{
    if b < s.len() {
        lemma_trim_right_at(s.drop_last(), b);
        assert(s.drop_last().take(b) =~= s.take(b));
    } else {
        assert(s.take(s.len() as int) =~= s);
    }
}

/// The `Line` node one input line turns into: the text before the first
/// `:` becomes the speaker, verbatim; the text after it, trimmed,
/// becomes the message. A line with no `:` is tolerated: it becomes the
/// speaker wholesale, with an empty message.
pub open spec fn line_node(seg: Seq<char>) -> NodeModel {
    let c = upto(seg, ':');
    if c >= seg.len() {
        NodeModel::Line { name: seg, message: Seq::empty() }
    } else {
        NodeModel::Line { name: seg.take(c as int), message: trimmed(seg.skip(c + 1int)) }
    }
}

/// The input cut at every newline: one segment more than there are
/// newline characters.
pub open spec fn split_lines(s: Seq<char>) -> Seq<Seq<char>>
    decreases s.len(),
{
    let n = upto(s, '\n');
    if n >= s.len() {
        seq![s]
    } else {
        seq![s.take(n as int)] + split_lines(s.skip(n + 1int))
    }
}

/// What parsing produces: a `Dialogue` of one `Line` per input line, in
/// input order; empty input gives a `Dialogue` with no children.
pub open spec fn parse_model(s: Seq<char>) -> NodeModel {
    if s.len() == 0 {
        NodeModel::Dialogue(Seq::empty())
    } else {
        NodeModel::Dialogue(split_lines(s).map_values(|seg: Seq<char>| line_node(seg)))
    }
}

/// Runtime twin of [`is_space`].
fn is_space_char(c: char) -> (b: bool)
    ensures
        b == is_space(c),
{
    c == ' ' || c == '\u{9}' || c == '\u{A}' || c == '\u{B}' || c == '\u{C}' || c == '\u{D}'
        || c == '\u{85}' || c == '\u{A0}' || c == '\u{1680}' || c == '\u{2000}' || c == '\u{2001}'
        || c == '\u{2002}' || c == '\u{2003}' || c == '\u{2004}' || c == '\u{2005}' || c
        == '\u{2006}' || c == '\u{2007}' || c == '\u{2008}' || c == '\u{2009}' || c == '\u{200A}'
        || c == '\u{2028}' || c == '\u{2029}' || c == '\u{202F}' || c == '\u{205F}' || c
        == '\u{3000}'
}

/// The first position at or after `from` holding `target`, or the
/// length when there is none.
fn find_from(s: &str, from: usize, target: char) -> (r: usize)
    requires
        from as int <= s@.len(),
        s@.len() <= usize::MAX,
    ensures
        from <= r <= s@.len(),
        forall|t: int| from <= t < r ==> s@[t] != target,
        r < s@.len() ==> s@[r as int] == target,
{
    let n = s.unicode_len();
    let mut i: usize = from;
    while i < n
        invariant
            from <= i <= n,
            n == s@.len(),
            forall|t: int| from <= t < i ==> s@[t] != target,
        decreases n - i,
    {
        if s.get_char(i) == target {
            return i;
        }
        i = i + 1;
    }
    i
}

/// Strips leading and trailing whitespace, as [`trimmed`] describes.
fn trim_str(s: &str) -> (r: String)
    ensures
        r@ == trimmed(s@),
{
    let n = s.unicode_len();
    let mut a: usize = 0;
    loop
        invariant
            a <= n,
            n == s@.len(),
            forall|t: int| 0 <= t < a ==> is_space(s@[t]),
        ensures
            a <= n,
            n == s@.len(),
            forall|t: int| 0 <= t < a ==> is_space(s@[t]),
            a == n || !is_space(s@[a as int]),
        decreases n - a,
    {
        if a >= n {
            break;
        }
        if !is_space_char(s.get_char(a)) {
            break;
        }
        a = a + 1;
    }
    if a == n {
        proof {
            lemma_trim_left_at(s@, a as int);
            assert(s@.skip(a as int) =~= Seq::<char>::empty());
        }
        String::new()
    } else {
        let mut b: usize = n;
        loop
            invariant
                a + 1 <= b <= n,
                n == s@.len(),
                !is_space(s@[a as int]),
                forall|t: int| b <= t < n ==> is_space(s@[t]),
            ensures
                a + 1 <= b <= n,
                forall|t: int| b <= t < n ==> is_space(s@[t]),
                !is_space(s@[b - 1]),
            decreases b,
        {
            if !is_space_char(s.get_char(b - 1)) {
                break;
            }
            b = b - 1;
        }
        let out = s.substring_char(a, b);
        proof {
            lemma_trim_left_at(s@, a as int);
            lemma_trim_right_at(s@.skip(a as int), b - a);
            assert(s@.skip(a as int).take(b - a) =~= s@.subrange(a as int, b as int));
        }
        out.to_owned()
    }
}

/// Parses one input line, as [`line_node`] describes.
fn parse_line(seg: &str) -> (nd: ASTNode)
    ensures
        nd@ == line_node(seg@),
{
    let n = seg.unicode_len();
    let c = find_from(seg, 0, ':');
    proof {
        lemma_upto_is_first(seg@, ':', c as int);
    }
    if c == n {
        ASTNode::Line { name: seg.to_owned(), message: String::new() }
    } else {
        let name = seg.substring_char(0, c);
        let rest = seg.substring_char(c + 1, n);
        let message = trim_str(rest);
        ASTNode::Line { name: name.to_owned(), message }
    }
}

/// Parses a whole script: cuts it at every newline, parses each line,
/// and wraps the lot in a single top-level `Dialogue`.
pub fn convert(input: String) -> (r: ASTNode)
    ensures
        r@ == parse_model(input@),
{
    let s = input.as_str();
    let n = s.unicode_len();
    let mut lines: Vec<ASTNode> = Vec::new();
    if n == 0 {
        proof {
            assert(crate::ast::seq_view(lines@) =~= Seq::<NodeModel>::empty());
        }
        return ASTNode::Dialogue(lines);
    }
    let ghost done: Seq<Seq<char>> = Seq::empty();
    let mut pos: usize = 0;
    let mut j = find_from(s, 0, '\n');
    proof {
        assert(done.map_values(|seg: Seq<char>| line_node(seg)) =~= Seq::<NodeModel>::empty());
        assert(s@.skip(0) =~= s@);
    }
    loop
        invariant_except_break
            split_lines(input@) == done + split_lines(input@.skip(pos as int)),
        invariant
            pos <= j <= n,
            n == s@.len(),
            s@ == input@,
            n > 0,
            forall|t: int| pos <= t < j ==> s@[t] != '\n',
            j < n ==> s@[j as int] == '\n',
            lines@.len() == done.len(),
            crate::ast::seq_view(lines@) =~= done.map_values(|seg: Seq<char>| line_node(seg)),
        ensures
            crate::ast::seq_view(lines@) =~= split_lines(input@).map_values(
                |seg: Seq<char>| line_node(seg),
            ),
        decreases n - pos,
    {
        let seg = s.substring_char(pos, j);
        let nd = parse_line(seg);
        let ghost prev_done: Seq<Seq<char>> = done;
        let ghost prev_lines: Seq<ASTNode> = lines@;
        lines.push(nd);
        proof {
            done = done + seq![s@.subrange(pos as int, j as int)];
            lemma_upto_is_first(s@.skip(pos as int), '\n', j - pos);
            assert(s@.skip(pos as int).take(j - pos) =~= s@.subrange(pos as int, j as int));
            assert(crate::ast::seq_view(lines@) =~= crate::ast::seq_view(prev_lines).push(nd@));
            assert(crate::ast::seq_view(lines@) =~= done.map_values(
                |seg2: Seq<char>| line_node(seg2),
            ));
        }
        if j == n {
            proof {
                assert(s@.skip(pos as int) =~= s@.subrange(pos as int, j as int));
                assert(split_lines(input@.skip(pos as int)) =~= seq![
                    s@.subrange(pos as int, j as int),
                ]);
                assert(split_lines(input@) =~= done);
            }
            break;
        }
        proof {
            assert(s@.skip(pos as int).skip(j - pos + 1) =~= s@.skip(j + 1));
            assert(split_lines(input@.skip(pos as int)) == seq![
                s@.subrange(pos as int, j as int),
            ] + split_lines(input@.skip(j + 1)));
            assert(split_lines(input@) =~= done + split_lines(input@.skip(j + 1)));
        }
        pos = j + 1;
        j = find_from(s, pos, '\n');
    }
    ASTNode::Dialogue(lines)
}

} // verus!
