//! Source text as characters and lines.
use vstd::prelude::*;
use vstd::std_specs::iter::IteratorSpec;

verus! {

/// The lines of a text, each with its terminating newline; the last one may
/// lack it. The empty text has no line.
pub open spec fn lines_of(s: Seq<char>) -> Seq<Seq<char>>
    decreases s.len(),
{
    if s.len() == 0 {
        Seq::empty()
    } else {
        let ls = lines_of(s.drop_last());
        if ls.len() == 0 || ls.last().last() == '\n' {
            ls.push(seq![s.last()])
        } else {
            ls.drop_last().push(ls.last().push(s.last()))
        }
    }
}

/// The texts one after the other.
pub open spec fn concat(ls: Seq<Seq<char>>) -> Seq<char>
    decreases ls.len(),
{
    if ls.len() == 0 {
        Seq::empty()
    } else {
        concat(ls.drop_last()) + ls.last()
    }
}

/// Characters with the Unicode `White_Space` property.
pub open spec fn is_white_space(c: char) -> bool {
    let u = c as u32;
    (0x09 <= u <= 0x0d) || u == 0x20 || u == 0x85 || u == 0xa0 || u == 0x1680 || (0x2000 <= u
        <= 0x200a) || u == 0x2028 || u == 0x2029 || u == 0x202f || u == 0x205f || u == 0x3000
}

/// Whether `c` has the Unicode `White_Space` property.
pub fn char_is_white_space(c: char) -> (r: bool)
    ensures
        r == is_white_space(c),
{
    let u = c as u32;
    (0x09 <= u && u <= 0x0d) || u == 0x20 || u == 0x85 || u == 0xa0 || u == 0x1680 || (0x2000 <= u
        && u <= 0x200a) || u == 0x2028 || u == 0x2029 || u == 0x202f || u == 0x205f || u == 0x3000
}

/// The characters of a text, in order.
pub fn chars_of(s: &str) -> (r: Vec<char>)
    ensures
        r@ == s@,
{
    broadcast use vstd::string::axiom_spec_iter, vstd::string::next_postcondition;

    let mut it = s.chars();
    let mut r: Vec<char> = Vec::new();
    loop
        invariant
            r@ + it.remaining() == s@,
            it.decrease() is Some,
        decreases it.decrease()->0,
    {
        let ghost before = it.remaining();
        match it.next() {
            Some(c) => {
                r.push(c);
                proof {
                    assert(r@ + it.remaining() =~= s@);
                }
            },
            None => {
                proof {
                    assert(before.len() == 0);
                    assert(r@ =~= s@);
                }
                return r;
            },
        }
    }
}

/// Relies on collecting characters into a `String`: the text of these
/// characters in order.
#[verifier::external_body]
pub(crate) fn string_of(v: &Vec<char>) -> (r: String)
    ensures
        r@ == v@,
{
    v.iter().collect()
}

/// The views of a list of lines.
pub open spec fn lines_view(v: Seq<Vec<char>>) -> Seq<Seq<char>> {
    v.map_values(|l: Vec<char>| l@)
}

/// Splits a text into its lines.
pub fn split_lines(s: &Vec<char>) -> (r: Vec<Vec<char>>)
    ensures
        lines_view(r@) == lines_of(s@),
{
    let mut lines: Vec<Vec<char>> = Vec::new();
    let mut cur: Vec<char> = Vec::new();
    let mut i: usize = 0;
    while i < s.len()
        invariant
            0 <= i <= s.len(),
            forall|k: int|
                0 <= k < lines@.len() ==> (#[trigger] lines@[k])@.len() > 0 && lines@[k]@.last()
                    == '\n',
            forall|k: int| 0 <= k < cur@.len() ==> cur@[k] != '\n',
            lines_of(s@.take(i as int)) == if cur@.len() == 0 {
                lines_view(lines@)
            } else {
                lines_view(lines@).push(cur@)
            },
        decreases s.len() - i,
    {
        let c = s[i];
        proof {
            assert(s@.take(i + 1).drop_last() =~= s@.take(i as int));
            assert(s@.take(i + 1).last() == c);
        }
        let ghost old_cur = cur@;
        let ghost old_lines = lines_view(lines@);
        cur.push(c);
        if c == '\n' {
            lines.push(cur);
            cur = Vec::new();
            proof {
                if old_cur.len() == 0 {
                    assert(old_cur.push(c) =~= seq![c]);
                    assert(lines_view(lines@) =~= old_lines.push(seq![c]));
                } else {
                    assert(old_lines.push(old_cur).drop_last() =~= old_lines);
                    assert(lines_view(lines@) =~= old_lines.push(old_cur.push(c)));
                }
            }
        } else {
            proof {
                if old_cur.len() == 0 {
                    assert(cur@ =~= seq![c]);
                } else {
                    assert(old_lines.push(old_cur).drop_last() =~= old_lines);
                }
            }
        }
        i = i + 1;
    }
    proof {
        assert(s@.take(s.len() as int) =~= s@);
    }
    if cur.len() > 0 {
        lines.push(cur);
        proof {
            assert(lines_view(lines@) =~= lines_view(lines@.drop_last()).push(lines@.last()@));
        }
    }
    lines
}

/// Appends the characters of `t` to `out`.
pub fn append_chars(out: &mut Vec<char>, t: &Vec<char>)
    ensures
        final(out)@ == old(out)@ + t@,
{
    let mut i: usize = 0;
    while i < t.len()
        invariant
            0 <= i <= t.len(),
            out@ == old(out)@ + t@.take(i as int),
        decreases t.len() - i,
    {
        out.push(t[i]);
        proof {
            assert(out@ =~= old(out)@ + t@.take(i + 1));
        }
        i = i + 1;
    }
    proof {
        assert(t@.take(t.len() as int) =~= t@);
    }
}

} // verus!
