//! Lists of names as they are written on a command line: separated by
//! commas, with blanks around a name and empty entries ignored.

use vstd::prelude::*;
use vstd::string::StrSliceExecFns;

verus! {

/// A character with the Unicode property `White_Space`.
pub open spec fn is_space(c: char) -> bool {
    let code = c as u32;
    ||| 0x09 <= code <= 0x0D
    ||| code == 0x20
    ||| code == 0x85
    ||| code == 0xA0
    ||| code == 0x1680
    ||| 0x2000 <= code <= 0x200A
    ||| code == 0x2028
    ||| code == 0x2029
    ||| code == 0x202F
    ||| code == 0x205F
    ||| code == 0x3000
}

/// `s` without the white space at its start.
pub open spec fn without_leading_space(s: Seq<char>) -> Seq<char>
    decreases s.len(),
{
    if s.len() > 0 && is_space(s[0]) {
        without_leading_space(s.drop_first())
    } else {
        s
    }
}

/// `s` without the white space at its end.
pub open spec fn without_trailing_space(s: Seq<char>) -> Seq<char>
    decreases s.len(),
{
    if s.len() > 0 && is_space(s.last()) {
        without_trailing_space(s.drop_last())
    } else {
        s
    }
}

/// `s` without the white space at either end.
pub open spec fn trimmed(s: Seq<char>) -> Seq<char> {
    without_trailing_space(without_leading_space(s))
}

/// The number of characters before the first comma of `s`: all of them if
/// there is no comma.
pub open spec fn first_comma(s: Seq<char>) -> nat
    decreases s.len(),
{
    if s.len() == 0 || s[0] == ',' {
        0
    } else {
        1 + first_comma(s.drop_first())
    }
}

/// The names listed in `s`: the text between commas, each stripped of the
/// white space around it, leaving out what is empty after that.
pub open spec fn names_of(s: Seq<char>) -> Seq<Seq<char>>
    decreases s.len(),
{
    let end = first_comma(s) as int;
    let name = trimmed(s.take(end));
    let found = if name.len() > 0 {
        seq![name]
    } else {
        Seq::empty()
    };
    if end < s.len() {
        found + names_of(s.skip(end + 1))
    } else {
        found
    }
}

/// The names a list of strings stands for.
pub open spec fn views(names: Seq<String>) -> Seq<Seq<char>> {
    Seq::new(names.len(), |i: int| names[i]@)
}

/// The characters of a string, one by one.
fn chars_of(s: &str) -> (v: Vec<char>)
    ensures
        v@ == s@,
{
    broadcast use vstd::string::group_string_axioms;

    let mut v: Vec<char> = Vec::new();
    for c in it: s.chars()
        invariant
            it.seq() == s@,
            v@ == it.seq().take(it.index() as int),
    {
        v.push(c);
    }
    assert(v@ =~= s@);
    v
}

/// Whether a character has the Unicode property `White_Space`.
pub fn is_whitespace(c: char) -> (space: bool)
    ensures
        space == is_space(c),
{
    let code = c as u32;
    (0x09 <= code && code <= 0x0D) || code == 0x20 || code == 0x85 || code == 0xA0 || code
        == 0x1680 || (0x2000 <= code && code <= 0x200A) || code == 0x2028 || code == 0x2029
        || code == 0x202F || code == 0x205F || code == 0x3000
}

/// Finds, within `chars[from..to]`, the part that is left when the white
/// space at both ends is taken away.
fn trim_range(chars: &Vec<char>, from: usize, to: usize) -> (range: (usize, usize))
    requires
        from <= to <= chars@.len(),
    ensures
        from <= range.0 <= range.1 <= to,
        chars@.subrange(range.0 as int, range.1 as int) == trimmed(
            chars@.subrange(from as int, to as int),
        ),
{
    let mut start = from;
    while start < to && is_whitespace(chars[start])
        invariant
            from <= start <= to <= chars@.len(),
            without_leading_space(chars@.subrange(from as int, to as int))
                == without_leading_space(chars@.subrange(start as int, to as int)),
        decreases to - start,
    {
        assert(chars@.subrange(start as int, to as int).drop_first() =~= chars@.subrange(
            start + 1,
            to as int,
        ));
        start += 1;
    }
    let mut end = to;
    while end > start && is_whitespace(chars[end - 1])
        invariant
            start <= end <= to <= chars@.len(),
            without_trailing_space(chars@.subrange(start as int, to as int))
                == without_trailing_space(chars@.subrange(start as int, end as int)),
        decreases end - start,
    {
        assert(chars@.subrange(start as int, end as int).drop_last() =~= chars@.subrange(
            start as int,
            end - 1,
        ));
        end -= 1;
    }
    (start, end)
}

/// Reads a comma-separated list of names. White space around a name does
/// not count, and an entry with nothing else in it is skipped.
pub fn listed_names(list: &str) -> (names: Vec<String>)
    ensures
        views(names@) == names_of(list@),
{
    let chars = chars_of(list);
    let n = chars.len();
    let mut names: Vec<String> = Vec::new();
    let mut pos: usize = 0;
    proof {
        assert(chars@.skip(0) =~= chars@);
        assert(views(names@) =~= Seq::<Seq<char>>::empty());
    }
    loop
        invariant_except_break
            pos <= n,
            n == chars@.len(),
            chars@ == list@,
            names_of(list@) == views(names@) + names_of(chars@.skip(pos as int)),
        ensures
            views(names@) == names_of(list@),
        decreases n - pos,
    {
        let ghost rest = chars@.skip(pos as int);
        let mut end = pos;
        while end < n && chars[end] != ','
            invariant
                pos <= end <= n,
                n == chars@.len(),
                first_comma(chars@.skip(pos as int)) == (end - pos) + first_comma(
                    chars@.skip(end as int),
                ),
            decreases n - end,
        {
            assert(chars@.skip(end as int).drop_first() =~= chars@.skip(end + 1));
            end += 1;
        }
        let (a, b) = trim_range(&chars, pos, end);
        let ghost before = views(names@);
        proof {
            assert(first_comma(rest) == end - pos);
            assert(rest.take(end - pos) =~= chars@.subrange(pos as int, end as int));
        }
        if a < b {
            let name = list.substring_char(a, b).to_owned();
            names.push(name);
            assert(views(names@) =~= before + seq![chars@.subrange(a as int, b as int)]);
        } else {
            assert(chars@.subrange(a as int, b as int).len() == 0);
        }
        if end >= n {
            assert(names_of(rest) =~= views(names@).skip(before.len() as int));
            assert(views(names@) =~= before + names_of(rest));
            break ;
        }
        assert(rest.skip(end - pos + 1) =~= chars@.skip(end + 1));
        assert(names_of(rest) =~= views(names@).skip(before.len() as int) + names_of(
            chars@.skip(end + 1),
        ));
        assert(names_of(list@) =~= views(names@) + names_of(chars@.skip(end + 1)));
        pos = end + 1;
    }
    names
}

} // verus!
