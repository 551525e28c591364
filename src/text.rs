use vstd::prelude::*;
use vstd::string::StringExecFns;

verus! {

/// Whether `c` has Unicode's Alphabetic property.
pub uninterp spec fn alphabetic(c: char) -> bool;

/// Whether `c` falls in one of Unicode's numeric general categories.
pub uninterp spec fn numeric(c: char) -> bool;

/// Relies on `char::is_alphabetic`: whether the character has the Alphabetic property.
#[verifier::external_body]
pub(crate) fn is_alphabetic(c: char) -> (r: bool)
    ensures
        r == alphabetic(c),
{
    c.is_alphabetic()
}

/// Relies on `char::is_numeric`: whether the character is in a numeric general category.
#[verifier::external_body]
pub(crate) fn is_numeric(c: char) -> (r: bool)
    ensures
        r == numeric(c),
{
    c.is_numeric()
}

/// The decimal digits of `n`, most significant first.
pub open spec fn decimal_digits(n: nat) -> Seq<char>
    decreases n,
{
    let d = ((n % 10) as u8 + ('0' as u8)) as char;
    if n < 10 {
        seq![d]
    } else {
        decimal_digits(n / 10).push(d)
    }
}

/// The one-character text of decimal digit `d`.
fn digit(d: usize) -> (r: &'static str)
    requires
        d < 10,
    ensures
        r@ == seq![((d as nat % 10) as u8 + ('0' as u8)) as char],
{
    proof {
        reveal_strlit("0");
        reveal_strlit("1");
        reveal_strlit("2");
        reveal_strlit("3");
        reveal_strlit("4");
        reveal_strlit("5");
        reveal_strlit("6");
        reveal_strlit("7");
        reveal_strlit("8");
        reveal_strlit("9");
    }
    let r = if d == 0 {
        "0"
    } else if d == 1 {
        "1"
    } else if d == 2 {
        "2"
    } else if d == 3 {
        "3"
    } else if d == 4 {
        "4"
    } else if d == 5 {
        "5"
    } else if d == 6 {
        "6"
    } else if d == 7 {
        "7"
    } else if d == 8 {
        "8"
    } else {
        "9"
    };
    assert(r@ =~= seq![((d as nat % 10) as u8 + ('0' as u8)) as char]);
    r
}

/// The decimal digits of `n`.
pub fn decimal(n: usize) -> (r: String)
    ensures
        r@ == decimal_digits(n as nat),
    decreases n,
{
    if n < 10 {
        String::from_str(digit(n))
    } else {
        let mut r = decimal(n / 10);
        r.append(digit(n % 10));
        r
    }
}

/// Offset of the first character of the line that holds offset `off`.
pub open spec fn line_start(s: Seq<char>, off: int) -> int
    decreases off,
{
    if off <= 0 {
        0
    } else if s[off - 1] == '\n' {
        off
    } else {
        line_start(s, off - 1)
    }
}

/// Number of line breaks before offset `off`: its line, counted from zero.
pub open spec fn line_of(s: Seq<char>, off: int) -> nat
    decreases off,
{
    if off <= 0 {
        0
    } else {
        line_of(s, off - 1) + if s[off - 1] == '\n' {
            1nat
        } else {
            0nat
        }
    }
}

/// Offset of the line break, or of the end of the text, that closes the line running from `from`.
pub open spec fn line_end(s: Seq<char>, from: int) -> int
    decreases s.len() - from,
{
    if from >= s.len() {
        s.len() as int
    } else if from >= 0 && s[from] == '\n' {
        from
    } else {
        line_end(s, from + 1)
    }
}

/// The text of the line that holds offset `off`, without its line break.
pub open spec fn line_text(s: Seq<char>, off: int) -> Seq<char> {
    s.subrange(line_start(s, off), line_end(s, line_start(s, off)))
}

/// A place in a source text, both counts starting at zero.
#[derive(Debug, Clone, Copy, PartialEq, Eq)]
pub struct Position {
    pub line: usize,
    pub col: usize,
}

/// The characters of `source`, in order.
pub fn chars_of(source: &str) -> (r: Vec<char>)
    ensures
        r@ == source@,
{
    let n = source.unicode_len();
    let mut r: Vec<char> = Vec::new();
    let mut i: usize = 0;
    while i < n
        invariant
            n == source@.len(),
            i <= n,
            r@ == source@.subrange(0, i as int),
        decreases n - i,
    {
        r.push(source.get_char(i));
        i = i + 1;
    }
    assert(r@ =~= source@);
    r
}

/// Line and column of offset `off` in `chars`.
pub fn locate(chars: &Vec<char>, off: usize) -> (r: Position)
    requires
        off <= chars@.len(),
    ensures
        r.line == line_of(chars@, off as int),
        r.col == off - line_start(chars@, off as int),
{
    let mut i: usize = 0;
    let mut line: usize = 0;
    let mut ls: usize = 0;
    while i < off
        invariant
            i <= off <= chars@.len(),
            line <= i,
            ls <= i,
            line == line_of(chars@, i as int),
            ls == line_start(chars@, i as int),
        decreases off - i,
    {
        if chars[i] == '\n' {
            line = line + 1;
            ls = i + 1;
        }
        i = i + 1;
    }
    Position { line, col: off - ls }
}

/// Offset where the line running from `from` ends.
pub fn find_line_end(chars: &Vec<char>, from: usize) -> (r: usize)
    requires
        from <= chars@.len(),
    ensures
        r == line_end(chars@, from as int),
{
    let mut i = from;
    while i < chars.len() && chars[i] != '\n'
        invariant
            from <= i <= chars@.len(),
            line_end(chars@, from as int) == line_end(chars@, i as int),
        decreases chars@.len() - i,
    {
        i = i + 1;
    }
    i
}

/// Every offset lies on its own line: the line starts at or before it and ends at or after it.
pub proof fn lemma_line_bounds(s: Seq<char>, off: int)
    requires
        0 <= off <= s.len(),
    ensures
        0 <= line_start(s, off) <= off,
        off <= line_end(s, line_start(s, off)) <= s.len(),
        forall|k: int| line_start(s, off) <= k < off ==> s[k] != '\n',
    decreases off,
{
    if off > 0 && s[off - 1] != '\n' {
        lemma_line_bounds(s, off - 1);
    }
    lemma_end_beyond(s, line_start(s, off), off);
}

/// A line that has no break before `off` ends at or after `off`.
proof fn lemma_end_beyond(s: Seq<char>, from: int, off: int)
    requires
        0 <= from <= off <= s.len(),
        forall|k: int| from <= k < off ==> s[k] != '\n',
    ensures
        off <= line_end(s, from) <= s.len(),
    decreases s.len() - from,
{
    if from < off {
        lemma_end_beyond(s, from + 1, off);
    } else {
        lemma_end_after(s, from);
    }
}

/// A line ends at or after the place it runs from, and within the text.
pub proof fn lemma_end_after(s: Seq<char>, from: int)
    requires
        0 <= from <= s.len(),
    ensures
        from <= line_end(s, from) <= s.len(),
    decreases s.len() - from,
{
    if from < s.len() && s[from] != '\n' {
        lemma_end_after(s, from + 1);
    }
}

} // verus!
