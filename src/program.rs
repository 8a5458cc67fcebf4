use vstd::prelude::*;
use vstd::string::StrSliceExecFns;

use crate::InterpError;

verus! {

/// One instruction of a program; any character outside the instruction set is a comment.
#[derive(Debug, Clone, Copy, PartialEq, Eq, Structural)]
pub enum Operations {
    Add,
    Subtract,
    MoveLeft,
    MoveRight,
    Input,
    Output,
    BracketLeft,
    BracketRight,
    Comment(char),
}

/// The instruction each character stands for.
pub open spec fn op_of(c: char) -> Operations {
    if c == '+' {
        Operations::Add
    } else if c == '-' {
        Operations::Subtract
    } else if c == '>' {
        Operations::MoveRight
    } else if c == '<' {
        Operations::MoveLeft
    } else if c == '.' {
        Operations::Output
    } else if c == ',' {
        Operations::Input
    } else if c == '[' {
        Operations::BracketLeft
    } else if c == ']' {
        Operations::BracketRight
    } else {
        Operations::Comment(c)
    }
}

/// The instruction that a character stands for.
pub fn decode(c: char) -> (r: Operations)
    ensures
        r == op_of(c),
{
    match c {
        '+' => Operations::Add,
        '-' => Operations::Subtract,
        '>' => Operations::MoveRight,
        '<' => Operations::MoveLeft,
        '.' => Operations::Output,
        ',' => Operations::Input,
        '[' => Operations::BracketLeft,
        ']' => Operations::BracketRight,
        _ => Operations::Comment(c),
    }
}

/// The instructions of a program text, one per character.
pub open spec fn parsed(text: Seq<char>) -> Seq<Operations> {
    text.map_values(|c: char| op_of(c))
}

/// Turns program text into its instructions, one per character.
pub fn parse(text: &Vec<char>) -> (r: Vec<Operations>)
    ensures
        r@ == parsed(text@),
{
    let mut r: Vec<Operations> = Vec::new();
    let mut i: usize = 0;
    while i < text.len()
        invariant
            i <= text@.len(),
            r@ == parsed(text@.subrange(0, i as int)),
        decreases text@.len() - i,
    {
        r.push(decode(text[i]));
        i += 1;
        assert(r@ =~= parsed(text@.subrange(0, i as int)));
    }
    assert(text@.subrange(0, text@.len() as int) =~= text@);
    r
}

/// Whether a character has Unicode's White_Space property, the set that `char::is_whitespace`
/// and `str::trim` use.
pub open spec fn white_space(c: char) -> bool {
    let u = c as u32;
    ||| 0x09 <= u <= 0x0D
    ||| u == 0x20 || u == 0x85 || u == 0xA0 || u == 0x1680
    ||| 0x2000 <= u <= 0x200A
    ||| u == 0x2028 || u == 0x2029 || u == 0x202F || u == 0x205F || u == 0x3000
}

fn is_white_space(c: char) -> (r: bool)
    ensures
        r == white_space(c),
{
    let u = c as u32;
    (0x09 <= u && u <= 0x0D) || u == 0x20 || u == 0x85 || u == 0xA0 || u == 0x1680
        || (0x2000 <= u && u <= 0x200A) || u == 0x2028 || u == 0x2029 || u == 0x202F
        || u == 0x205F || u == 0x3000
}

/// First index at or after `i` that does not hold whitespace (or the end).
pub open spec fn skip_leading(s: Seq<char>, i: int) -> int
    decreases s.len() - i,
{
    if 0 <= i < s.len() && white_space(s[i]) {
        skip_leading(s, i + 1)
    } else {
        i
    }
}

/// End of `s[lo..hi]` once the whitespace at its end is dropped.
pub open spec fn skip_trailing(s: Seq<char>, lo: int, hi: int) -> int
    decreases hi - lo,
{
    if lo < hi && white_space(s[hi - 1]) {
        skip_trailing(s, lo, hi - 1)
    } else {
        hi
    }
}

/// The text with the whitespace at both ends dropped.
pub open spec fn trimmed(s: Seq<char>) -> Seq<char> {
    let lo = skip_leading(s, 0);
    s.subrange(lo, skip_trailing(s, lo, s.len() as int))
}

/// How many times `c` occurs in `s`.
pub open spec fn count_char(s: Seq<char>, c: char) -> nat
    decreases s.len(),
{
    if s.len() == 0 {
        0
    } else {
        count_char(s.drop_last(), c) + if s.last() == c { 1nat } else { 0nat }
    }
}

/// Where the program ends and the input begins in a combined text: `None` when the text
/// holds no `!`, the position of the `!` when it holds exactly one, and a configuration error
/// when it holds more.
pub fn find_separator(text: &Vec<char>) -> (r: Result<Option<usize>, InterpError>)
    ensures
        count_char(text@, '!') == 0 ==> r == Ok::<Option<usize>, InterpError>(None),
        count_char(text@, '!') == 1 ==> (r matches Ok(Some(p)) && p < text@.len() && text@[p as int] == '!'),
        count_char(text@, '!') > 1 ==> r == Err::<Option<usize>, InterpError>(InterpError::ConfigurationError),
{
    let mut count: usize = 0;
    let mut first: usize = 0;
    let mut i: usize = 0;
    while i < text.len()
        invariant
            i <= text@.len(),
            count as nat == count_char(text@.subrange(0, i as int), '!'),
            count <= i,
            count > 0 ==> first < i && text@[first as int] == '!',
        decreases text@.len() - i,
    {
        assert(text@.subrange(0, i + 1).drop_last() =~= text@.subrange(0, i as int));
        if text[i] == '!' {
            if count == 0 {
                first = i;
            }
            count += 1;
        }
        i += 1;
    }
    assert(text@.subrange(0, text@.len() as int) =~= text@);
    if count == 0 {
        Ok(None)
    } else if count == 1 {
        Ok(Some(first))
    } else {
        Err(InterpError::ConfigurationError)
    }
}

/// Copies `s[lo..hi]` into a new vector.
fn copy_range(s: &Vec<char>, lo: usize, hi: usize) -> (r: Vec<char>)
    requires
        lo <= hi <= s@.len(),
    ensures
        r@ == s@.subrange(lo as int, hi as int),
{
    let mut r: Vec<char> = Vec::new();
    let mut i: usize = lo;
    while i < hi
        invariant
            lo <= i <= hi <= s@.len(),
            r@ == s@.subrange(lo as int, i as int),
        decreases hi - i,
    {
        r.push(s[i]);
        i += 1;
        assert(r@ =~= s@.subrange(lo as int, i as int));
    }
    r
}

/// The characters of a text, in order.
fn chars_of(s: &str) -> (r: Vec<char>)
    ensures
        r@ == s@,
{
    let mut r: Vec<char> = Vec::new();
    for c in it: s.chars()
        invariant
            r@ == it.seq().subrange(0, it.index() as int),
            it.seq() == s@,
    {
        r.push(c);
        assert(r@ =~= it.seq().subrange(0, it.index() + 1));
    }
    assert(r@ =~= s@);
    r
}

/// Bounds `(lo, hi)` of `s` once the whitespace at both ends is dropped.
fn trim_bounds(s: &Vec<char>) -> (r: (usize, usize))
    ensures
        r.0 as int == skip_leading(s@, 0),
        r.1 as int == skip_trailing(s@, r.0 as int, s@.len() as int),
        r.0 <= r.1 <= s@.len(),
{
    let mut lo: usize = 0;
    while lo < s.len() && is_white_space(s[lo])
        invariant
            lo <= s@.len(),
            skip_leading(s@, lo as int) == skip_leading(s@, 0),
        decreases s@.len() - lo,
    {
        lo += 1;
    }
    let mut hi: usize = s.len();
    while hi > lo && is_white_space(s[hi - 1])
        invariant
            lo <= hi <= s@.len(),
            skip_trailing(s@, lo as int, hi as int) == skip_trailing(s@, lo as int, s@.len() as int),
        decreases hi - lo,
    {
        hi -= 1;
    }
    (lo, hi)
}

/// Reads a source into program text and input. With `separate_input`, the trimmed source is
/// the program and `separate_input` the input. Without it, the trimmed source is split at its
/// one `!`: the program before it, the input after it; with no `!` the whole trimmed source is
/// the program and the input is empty; with more than one it is a configuration error.
pub fn load(source: &str, separate_input: Option<&str>) -> (r: Result<(Vec<char>, String), InterpError>)
    ensures
        ({
            let t = trimmed(source@);
            match separate_input {
                Some(input) => r matches Ok((p, i)) && p@ == t && i@ == input@,
                None => {
                    &&& count_char(t, '!') == 0 ==> (r matches Ok((p, i)) && p@ == t && i@.len() == 0)
                    &&& count_char(t, '!') == 1 ==> (r matches Ok((p, i)) && exists|k: int|
                        0 <= k < t.len() && t[k] == '!' && p@ == t.subrange(0, k) && i@ == t.subrange(k + 1, t.len() as int))
                    &&& count_char(t, '!') > 1 ==> r == Err::<(Vec<char>, String), InterpError>(InterpError::ConfigurationError)
                },
            }
        }),
{
    let chars = chars_of(source);
    let (lo, hi) = trim_bounds(&chars);
    let text = copy_range(&chars, lo, hi);
    match separate_input {
        Some(input) => Ok((text, input.to_owned())),
        None => match find_separator(&text) {
            Ok(None) => Ok((text, String::new())),
            Ok(Some(k)) => {
                let program = copy_range(&text, 0, k);
                let input = source.substring_char(lo + k + 1, hi).to_owned();
                assert(input@ =~= text@.subrange(k + 1, text@.len() as int));
                Ok((program, input))
            },
            Err(e) => Err(e),
        },
    }
}

} // verus!
