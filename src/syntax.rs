use vstd::prelude::*;
use crate::text::chars_of;

verus! {

/// How whitespace next to a tag is to be handled.
#[derive(Clone, Copy, PartialEq, Eq, Debug, Structural)]
pub enum WhitespaceHandling {
    /// Leave the whitespace as it is.
    Preserve,
    /// Remove all the whitespace next to the tag.
    Suppress,
    /// Remove the whitespace next to the tag but one character, a newline if
    /// there was one.
    Minimize,
}

impl Default for WhitespaceHandling {
    fn default() -> (r: Self)
        ensures
            r == WhitespaceHandling::Preserve,
    {
        WhitespaceHandling::Preserve
    }
}

/// The whitespace handling that a tag marker character asks for.
pub open spec fn marker_handling(c: char) -> Option<WhitespaceHandling> {
    if c == '+' {
        Some(WhitespaceHandling::Preserve)
    } else if c == '-' {
        Some(WhitespaceHandling::Suppress)
    } else if c == '~' {
        Some(WhitespaceHandling::Minimize)
    } else {
        None
    }
}

impl WhitespaceHandling {
    /// The handling that a marker character asks for: `+` preserve, `-`
    /// suppress, `~` minimize; any other character is no marker.
    pub fn from_marker(c: char) -> (r: Option<WhitespaceHandling>)
        ensures
            r == marker_handling(c),
    {
        if c == '+' {
            Some(WhitespaceHandling::Preserve)
        } else if c == '-' {
            Some(WhitespaceHandling::Suppress)
        } else if c == '~' {
            Some(WhitespaceHandling::Minimize)
        } else {
            None
        }
    }
}

/// The six delimiters of a template syntax.
#[derive(Debug)]
pub struct Syntax {
    /// Defaults to `"{%"`.
    pub block_start: String,
    /// Defaults to `"%}"`.
    pub block_end: String,
    /// Defaults to `"{{"`.
    pub expr_start: String,
    /// Defaults to `"}}"`.
    pub expr_end: String,
    /// Defaults to `"{#"`.
    pub comment_start: String,
    /// Defaults to `"#}"`.
    pub comment_end: String,
}

/// The two characters `a` and `b`.
pub open spec fn pair(a: char, b: char) -> Seq<char> {
    seq![a, b]
}

/// Every delimiter is two characters long, and the three start delimiters
/// share their first character or share their second one.
pub open spec fn delimiters_valid(
    bs: Seq<char>, be: Seq<char>, es: Seq<char>, ee: Seq<char>, cs: Seq<char>, ce: Seq<char>,
) -> bool {
    &&& bs.len() == 2 && be.len() == 2 && es.len() == 2
    &&& ee.len() == 2 && cs.len() == 2 && ce.len() == 2
    &&& ((bs[0] == cs[0] && bs[0] == es[0]) || (bs[1] == cs[1] && bs[1] == es[1]))
}

impl Syntax {
    /// The syntax's invariant.
    pub open spec fn is_valid(&self) -> bool {
        delimiters_valid(
            self.block_start@, self.block_end@, self.expr_start@,
            self.expr_end@, self.comment_start@, self.comment_end@,
        )
    }

    /// Whether this syntax is the built-in one.
    pub open spec fn is_builtin(&self) -> bool {
        &&& self.block_start@ == pair('{', '%')
        &&& self.block_end@ == pair('%', '}')
        &&& self.expr_start@ == pair('{', '{')
        &&& self.expr_end@ == pair('}', '}')
        &&& self.comment_start@ == pair('{', '#')
        &&& self.comment_end@ == pair('#', '}')
    }
}

fn two(a: char, b: char) -> (r: String)
    ensures
        r@ == pair(a, b),
{
    let mut s = String::new();
    crate::text::push_char(&mut s, a);
    crate::text::push_char(&mut s, b);
    assert(s@ =~= pair(a, b));
    s
}

impl Default for Syntax {
    fn default() -> (r: Self)
        ensures
            r.is_builtin(),
            r.is_valid(),
    {
        Syntax {
            block_start: two('{', '%'),
            block_end: two('%', '}'),
            expr_start: two('{', '{'),
            expr_end: two('}', '}'),
            comment_start: two('{', '#'),
            comment_end: two('#', '}'),
        }
    }
}

} // verus!
