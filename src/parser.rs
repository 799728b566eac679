//! The recursive-descent parser from template source to a `Block`.

use vstd::prelude::*;
use crate::node::{Block, BlockDef, CondBranch, Expr, Lit, Loop, Macro, Match, Node, When, Ws};
use crate::scan::{
    all_lower, ident_end, keyword_end, num_lit_end, quoted_end, span_is, has_upper, ident_at, lemma_skip_ws_end, sep_end, skip_ws_end, any_upper, char_lit, has_at, identifier, is_ws, is_ws_char, keyword, nested_parenthesis, num_lit,
    path_sep, skip_ws, str_lit, tag,
};
use crate::syntax::{marker_handling, Syntax, WhitespaceHandling};
use crate::diag::ParseError;
use crate::text::chars_of;

verus! {

/// The six delimiters of a syntax as character pairs.
#[derive(Clone, Copy, Debug)]
pub struct Delims {
    pub block_start: (char, char),
    pub block_end: (char, char),
    pub expr_start: (char, char),
    pub expr_end: (char, char),
    pub comment_start: (char, char),
    pub comment_end: (char, char),
}

pub open spec fn pair_of(s: Seq<char>) -> (char, char) {
    (s[0], s[1])
}

/// The delimiters of `syn` as character pairs.
pub open spec fn delims_of(syn: Syntax) -> Delims {
    Delims {
        block_start: pair_of(syn.block_start@),
        block_end: pair_of(syn.block_end@),
        expr_start: pair_of(syn.expr_start@),
        expr_end: pair_of(syn.expr_end@),
        comment_start: pair_of(syn.comment_start@),
        comment_end: pair_of(syn.comment_end@),
    }
}

fn pair_exec(s: &String) -> (r: (char, char))
    requires
        s@.len() == 2,
    ensures
        r == pair_of(s@),
{
    let c = chars_of(s.as_str());
    (c[0], c[1])
}

/// Parser state for one parse call: the delimiters, and how many loop
/// bodies enclose the current position.
#[derive(Clone, Copy, Debug)]
pub struct State {
    pub delims: Delims,
    pub loop_depth: usize,
}

impl State {
    pub fn new(syntax: &Syntax) -> (r: State)
        requires
            syntax.is_valid(),
        ensures
            r.delims == delims_of(*syntax),
            r.loop_depth == 0,
    {
        State {
            delims: Delims {
                block_start: pair_exec(&syntax.block_start),
                block_end: pair_exec(&syntax.block_end),
                expr_start: pair_exec(&syntax.expr_start),
                expr_end: pair_exec(&syntax.expr_end),
                comment_start: pair_exec(&syntax.comment_start),
                comment_end: pair_exec(&syntax.comment_end),
            },
            loop_depth: 0,
        }
    }

    pub fn enter_loop(&mut self)
        requires
            old(self).loop_depth < usize::MAX,
        ensures
            final(self).loop_depth == old(self).loop_depth + 1,
            final(self).delims == old(self).delims,
    {
        self.loop_depth = self.loop_depth + 1;
    }

    pub fn leave_loop(&mut self)
        requires
            old(self).loop_depth > 0,
        ensures
            final(self).loop_depth == old(self).loop_depth - 1,
            final(self).delims == old(self).delims,
    {
        self.loop_depth = self.loop_depth - 1;
    }

    pub fn is_in_loop(&self) -> (r: bool)
        ensures
            r == (self.loop_depth > 0),
    {
        self.loop_depth > 0
    }
}

/// A tag start delimiter stands at `pos`.
pub open spec fn tag_start_at(s: Seq<char>, pos: int, d: Delims) -> bool {
    has_at(s, pos, d.block_start) || has_at(s, pos, d.comment_start) || has_at(s, pos, d.expr_start)
}

/// The first index at or after `pos` where a tag starts, or the end of `s`.
pub open spec fn is_next_tag_start(s: Seq<char>, pos: int, q: int, d: Delims) -> bool {
    &&& pos <= q <= s.len()
    &&& forall|i: int| pos <= i < q ==> !tag_start_at(s, i, d)
    &&& (q == s.len() || tag_start_at(s, q, d))
}

/// Finds the first index at or after `pos` where a tag starts, or the end.
pub fn next_tag_start(s: &[char], pos: usize, d: Delims) -> (r: usize)
    requires
        pos <= s@.len(),
    ensures
        is_next_tag_start(s@, pos as int, r as int, d),
{
    let mut i = pos;
    while i < s.len() && !(tag(s, i, d.block_start) || tag(s, i, d.comment_start) || tag(s, i, d.expr_start))
        invariant
            pos <= i <= s@.len(),
            forall|j: int| pos <= j < i ==> !tag_start_at(s@, j, d),
        decreases s@.len() - i,
    {
        i = i + 1;
    }
    i
}

/// `lit` is `s[from..to]` split into leading whitespace, core and trailing
/// whitespace: the core neither starts nor ends with whitespace, and where
/// the text is all whitespace it is all leading.
pub open spec fn is_split_of(lit: Lit, s: Seq<char>, from: int, to: int) -> bool {
    &&& lit.lws@ + lit.val@ + lit.rws@ == s.subrange(from, to)
    &&& forall|i: int| 0 <= i < lit.lws@.len() ==> is_ws_char(#[trigger] lit.lws@[i])
    &&& forall|i: int| 0 <= i < lit.rws@.len() ==> is_ws_char(#[trigger] lit.rws@[i])
    &&& lit.val@.len() > 0 ==> !is_ws_char(lit.val@[0]) && !is_ws_char(lit.val@.last())
    &&& lit.val@.len() == 0 ==> lit.rws@.len() == 0
}

fn copy_range(s: &[char], from: usize, to: usize) -> (r: Vec<char>)
    requires
        from <= to <= s@.len(),
    ensures
        r@ == s@.subrange(from as int, to as int),
{
    let mut r: Vec<char> = Vec::new();
    let mut i = from;
    while i < to
        invariant
            from <= i <= to <= s@.len(),
            r@ == s@.subrange(from as int, i as int),
        decreases to - i,
    {
        r.push(s[i]);
        i = i + 1;
        assert(r@ =~= s@.subrange(from as int, i as int));
    }
    r
}

/// Splits the literal text `s[from..to]` into leading whitespace, core and
/// trailing whitespace, losing nothing.
pub fn split_ws_parts(s: &[char], from: usize, to: usize) -> (r: Lit)
    requires
        from <= to <= s@.len(),
    ensures
        is_split_of(r, s@, from as int, to as int),
{
    let mut a = from;
    while a < to && is_ws(s[a])
        invariant
            from <= a <= to <= s@.len(),
            forall|j: int| from <= j < a ==> is_ws_char(s@[j]),
        decreases to - a,
    {
        a = a + 1;
    }
    let mut b = to;
    while b > a && is_ws(s[b - 1])
        invariant
            a <= b <= to <= s@.len(),
            forall|j: int| b <= j < to ==> is_ws_char(s@[j]),
        decreases b,
    {
        b = b - 1;
    }
    let lit = Lit { lws: copy_range(s, from, a), val: copy_range(s, a, b), rws: copy_range(s, b, to) };
    assert(lit.lws@ + lit.val@ + lit.rws@ =~= s@.subrange(from as int, to as int));
    lit
}

} // verus!

verus! {

/// The outcome of one parsing step: what was parsed and where it ends; or no
/// match, with nothing consumed; or a failure at a position, which ends the
/// parse.
pub enum Step<T> {
    Done(T, usize),
    Miss,
    Fail(usize),
}

/// Where the optional whitespace marker at `p` ends.
pub open spec fn marker_end(s: Seq<char>, p: int) -> int {
    if p < s.len() && marker_handling(s[p]) is Some {
        p + 1
    } else {
        p
    }
}

/// The optional whitespace marker at `p`, and the position after it.
fn marker(s: &[char], p: usize) -> (r: (Option<WhitespaceHandling>, usize))
    requires
        p <= s@.len(),
    ensures
        p <= r.1 <= s@.len(),
        r.1 == marker_end(s@, p as int),
        r.0 == (if p < s@.len() { marker_handling(s@[p as int]) } else { None }),
{
    if p < s.len() {
        let m = WhitespaceHandling::from_marker(s[p]);
        match m {
            Some(_) => (m, p + 1),
            None => (None, p),
        }
    } else {
        (None, p)
    }
}

/// The marker and end of a tag's closing part at `p`: blanks, an optional
/// marker and the delimiter `d`.
pub open spec fn tag_end_spec(s: Seq<char>, p: int, d: (char, char)) -> Option<(Option<WhitespaceHandling>, int)> {
    let b = skip_ws_end(s, p);
    if has_at(s, marker_end(s, b), d) {
        Some((marker_at(s, b), marker_end(s, b) + 2))
    } else {
        None
    }
}

/// The marker of a block tag at `p` and where its keyword starts.
pub open spec fn block_open_spec(s: Seq<char>, p: int, d: Delims) -> Option<(Option<WhitespaceHandling>, int)> {
    if has_at(s, p, d.block_start) {
        Some((marker_at(s, p + 2), skip_ws_end(s, marker_end(s, p + 2))))
    } else {
        None
    }
}

/// A tag's end at `p`: whitespace, an optional marker and the delimiter `d`.
fn tag_end(s: &[char], p: usize, d: (char, char)) -> (r: Option<(Option<WhitespaceHandling>, usize)>)
    requires
        p <= s@.len(),
    ensures
        r matches Some((_, e)) ==> p + 2 <= e <= s@.len(),
        r matches Some((_, e)) ==> has_at(s@, e - 2, d),
        match r {
            Some((m, e)) => tag_end_spec(s@, p as int, d) == Some((m, e as int)),
            None => tag_end_spec(s@, p as int, d) is None,
        },
        has_at(s@, skip_ws_end(s@, p as int), d) && marker_at(s@, skip_ws_end(s@, p as int)) is None
            ==> r == Some::<(Option<WhitespaceHandling>, usize)>((None, (skip_ws_end(s@, p as int) + 2) as usize)),
{
    let a = skip_ws(s, p);
    proof { lemma_skip_ws_end(s@, p as int, a as int); }
    let (m, b) = marker(s, a);
    if s.len() - b >= 2 && tag(s, b, d) {
        Some((m, b + 2))
    } else {
        None
    }
}

/// The opening of a block tag at `p`: its marker, and where its keyword
/// starts.
fn block_open(s: &[char], p: usize, d: Delims) -> (r: Option<(Option<WhitespaceHandling>, usize)>)
    requires
        p <= s@.len(),
    ensures
        r matches Some((_, k)) ==> p + 2 <= k <= s@.len() && has_at(s@, p as int, d.block_start),
        match r {
            Some((m, k)) => block_open_spec(s@, p as int, d) == Some((m, k as int)),
            None => block_open_spec(s@, p as int, d) is None,
        },
{
    if s.len() - p >= 2 && tag(s, p, d.block_start) {
        let (m, q) = marker(s, p + 2);
        let k = skip_ws(s, q);
        proof { lemma_skip_ws_end(s@, q as int, k as int); }
        Some((m, k))
    } else {
        None
    }
}

/// The text of each segment.
pub open spec fn segs_view(v: Seq<Vec<char>>) -> Seq<Seq<char>> {
    v.map_values(|x: Vec<char>| x@)
}

/// The segments `:: ident` that follow, from `end` on, and where they end.
pub open spec fn more_segs(s: Seq<char>, end: int) -> (Seq<Seq<char>>, int)
    decreases s.len() - end,
{
    match sep_end(s, end) {
        Some(q) => match ident_end(s, q) {
            Some(e) => if end < e <= s.len() {
                let rest = more_segs(s, e);
                (seq![s.subrange(q, e)] + rest.0, rest.1)
            } else {
                (seq![], end)
            },
            None => (seq![], end),
        },
        None => (seq![], end),
    }
}

/// The path at `pos` and where it ends: with an optional leading `::`
/// (an empty first segment), an identifier, `::`, an identifier, and any
/// further `:: identifier`; or else a lone identifier with an upper-case
/// character, as one segment.
pub open spec fn path_spec(s: Seq<char>, pos: int) -> Option<(Seq<Seq<char>>, int)> {
    let root = sep_end(s, pos);
    let p = match root { Some(q) => q, None => pos };
    let head: Seq<Seq<char>> = match root { Some(_) => seq![seq![]], None => seq![] };
    let lone = match ident_end(s, pos) {
        Some(e) => if has_upper(s, pos, e) { Some((seq![s.subrange(pos, e)], e)) } else { None },
        None => None,
    };
    match ident_end(s, p) {
        Some(e1) => match sep_end(s, e1) {
            Some(q) => match ident_end(s, q) {
                Some(e2) => {
                    let rest = more_segs(s, e2);
                    Some((head + seq![s.subrange(p, e1), s.subrange(q, e2)] + rest.0, rest.1))
                },
                None => lone,
            },
            None => lone,
        },
        None => lone,
    }
}

/// A path at `pos`: identifiers joined by `::`, with an optional leading
/// `::` that gives an empty first segment; or else a lone identifier that
/// holds an upper-case character, taken as a one-segment path.
pub fn path(s: &[char], pos: usize) -> (r: Option<(Vec<Vec<char>>, usize)>)
    requires
        pos <= s@.len(),
    ensures
        r matches Some((segs, e)) ==> pos < e <= s@.len() && segs@.len() >= 1,
        r matches Some((segs, e)) ==> (segs@.len() == 1 ==> ident_at(s@, pos as int, e as int)
            && has_upper(s@, pos as int, e as int) && segs@[0]@ == s@.subrange(pos as int, e as int)),
        r is None ==> forall|e: int| ident_at(s@, pos as int, e) ==> !has_upper(s@, pos as int, e),
        match r {
            Some((segs, e)) => path_spec(s@, pos as int) == Some((segs_view(segs@), e as int)),
            None => path_spec(s@, pos as int) is None,
        },
        forall|e: int| ident_at(s@, pos as int, e) && sep_end(s@, e) is None && !has_upper(s@, pos as int, e)
            ==> r is None,
        forall|e: int| ident_at(s@, pos as int, e) && sep_end(s@, e) is None && all_lower(s@, pos as int, e)
            ==> r is None,
        forall|e1: int, q: int, e2: int|
            ident_at(s@, pos as int, e1) && sep_end(s@, e1) == Some(q) && ident_at(s@, q, e2) ==> (
            r matches Some((segs, _)) && segs@.len() >= 2),
{
    let mut segs: Vec<Vec<char>> = Vec::new();
    let mut p = pos;
    if let Some(q) = path_sep(s, pos) {
        segs.push(Vec::new());
        p = q;
        proof {
            crate::scan::lemma_skip_ws_end_bounds(s@, pos as int);
            assert forall|e: int| !ident_at(s@, pos as int, e) by {
                if ident_at(s@, pos as int, e) {
                    crate::scan::lemma_skip_ws_end_bounds(s@, pos as int);
                }
            };
        }
    }
    if let Some(e1) = identifier(s, p) {
        if let Some(q) = path_sep(s, e1) {
            if let Some(e2) = identifier(s, q) {
                let ghost head0 = segs_view(segs@);
                let first = copy_range(s, p, e1);
                let second = copy_range(s, q, e2);
                segs.push(first);
                segs.push(second);
                let ghost head = segs_view(segs@);
                let ghost target = more_segs(s@, e2 as int);
                assert(head =~= head0 + seq![s@.subrange(p as int, e1 as int), s@.subrange(q as int, e2 as int)]);
                let mut end = e2;
                let mut more = true;
                while more
                    invariant
                        pos < end <= s@.len(),
                        segs@.len() >= 2,
                        segs_view(segs@) + more_segs(s@, end as int).0 == head + target.0,
                        more_segs(s@, end as int).1 == target.1,
                        !more ==> more_segs(s@, end as int) == (Seq::<Seq<char>>::empty(), end as int),
                    decreases s@.len() - end, if more { 1int } else { 0int },
                {
                    more = false;
                    let ghost old_segs = segs@;
                    if let Some(q2) = path_sep(s, end) {
                        if let Some(e3) = identifier(s, q2) {
                            let seg = copy_range(s, q2, e3);
                            segs.push(seg);
                            proof {
                                assert(segs_view(segs@) =~= segs_view(old_segs).push(seg@));
                                let m = more_segs(s@, e3 as int);
                                assert(more_segs(s@, end as int) == (seq![s@.subrange(q2 as int, e3 as int)] + m.0, m.1));
                                assert(segs_view(segs@) + m.0 =~= segs_view(old_segs) + (seq![s@.subrange(q2 as int, e3 as int)] + m.0));
                            }
                            end = e3;
                            more = true;
                        }
                    }
                }
                proof {
                    assert(segs_view(segs@) =~= segs_view(segs@) + Seq::<Seq<char>>::empty());
                }
                proof {
                    assert forall|f: int| ident_at(s@, pos as int, f) && sep_end(s@, f) is None
                        && !has_upper(s@, pos as int, f) implies false by {
                        crate::scan::lemma_skip_ws_end_bounds(s@, pos as int);
                        if p == pos {
                            crate::scan::lemma_ident_at_unique(s@, pos as int, f, e1 as int);
                        }
                    };
                }
                proof {
                    assert forall|f: int| ident_at(s@, pos as int, f) && sep_end(s@, f) is None
                        && all_lower(s@, pos as int, f) implies false by {
                        crate::scan::lemma_skip_ws_end_bounds(s@, pos as int);
                        if p == pos {
                            crate::scan::lemma_ident_at_unique(s@, pos as int, f, e1 as int);
                        }
                    };
                }
                return Some((segs, end));
            } else {
                proof {
                    assert forall|f1: int, f: int, f2: int|
                        ident_at(s@, pos as int, f1) && sep_end(s@, f1) == Some(f) && ident_at(s@, f, f2)
                        implies false by {
                        if p == pos {
                            crate::scan::lemma_ident_at_unique(s@, pos as int, f1, e1 as int);
                        }
                    };
                }
            }
        } else {
            proof {
                assert forall|f1: int, f: int, f2: int|
                    ident_at(s@, pos as int, f1) && sep_end(s@, f1) == Some(f) && ident_at(s@, f, f2)
                    implies false by {
                    if p == pos {
                        crate::scan::lemma_ident_at_unique(s@, pos as int, f1, e1 as int);
                    }
                };
            }
        }
    }

    match identifier(s, pos) {
        Some(e) => {
            if any_upper(s, pos, e) {
                proof {
                    assert forall|f: int| ident_at(s@, pos as int, f) implies f == e by {
                        crate::scan::lemma_ident_at_unique(s@, pos as int, f, e as int);
                    };
                }
                Some((vec![copy_range(s, pos, e)], e))
            } else {
                proof {
                    assert forall|f: int| ident_at(s@, pos as int, f) implies !has_upper(s@, pos as int, f) by {
                        crate::scan::lemma_ident_at_unique(s@, pos as int, f, e as int);
                    };
                }
                None
            }
        },
        None => None,
    }
}

/// A character that cannot continue an expression after an operand: no
/// operator, filter or suffix starts with it.
pub open spec fn ends_operand(c: char) -> bool {
    !(c == '|' || c == '.' || c == '[' || c == '(' || c == '*' || c == '/' || c == '%' || c == '+'
        || c == '-' || c == '=' || c == '!' || c == '<' || c == '>' || c == '&')
}

/// No operand can start at `p`.
pub open spec fn no_operand(s: Seq<char>, p: int) -> bool {
    p >= s.len() || (0 <= p && !(s[p] == '(' || s[p] == '"' || s[p] == '\'' || s[p] == '!' || s[p] == '-'
        || s[p] == ':' || crate::scan::is_digit(s[p]) || crate::scan::ident_start_char(s[p])
        || is_ws_char(s[p])))
}

/// Nothing continues an expression whose operand ends at `e`: what follows
/// is no operator, filter or suffix, or it is a `-` or `+` with no operand
/// after it.
pub open spec fn expr_stops(s: Seq<char>, e: int) -> bool {
    let b = skip_ws_end(s, e);
    ||| b == s.len()
    ||| ends_operand(s[b])
    ||| (s[b] == '-' || s[b] == '+') && no_operand(s, skip_ws_end(s, b + 1))
}

/// `s[pos..e]` is a plain variable that makes a whole expression: an
/// identifier of lower-case ASCII letters, digits and `_`, other than `true`
/// and `false`, followed by no `::`
/// and by nothing that continues an expression.
pub open spec fn plain_var_at(s: Seq<char>, pos: int, e: int) -> bool {
    &&& ident_at(s, pos, e)
    &&& all_lower(s, pos, e)
    &&& sep_end(s, e) is None
    &&& !span_is(s, pos, e, "true"@)
    &&& !span_is(s, pos, e, "false"@)
    &&& expr_stops(s, e)
}

/// A literal or an identifier starts at `pos`.
pub open spec fn simple_atom_at(s: Seq<char>, pos: int) -> bool {
    &&& 0 <= pos < s.len()
    &&& {
        ||| s[pos] == '"' && quoted_end(s, pos + 1, '"') is Some
        ||| s[pos] == '\'' && quoted_end(s, pos + 1, '\'') is Some
        ||| crate::scan::is_digit(s[pos])
        ||| crate::scan::ident_start_char(s[pos])
    }
}

/// An operand starts at `pos`: a literal or an identifier, with or without
/// a `!` or `-` before it.
pub open spec fn operand_start(s: Seq<char>, pos: int) -> bool {
    ||| simple_atom_at(s, pos)
    ||| 0 <= pos < s.len() && (s[pos] == '!' || s[pos] == '-') && simple_atom_at(s, skip_ws_end(s, pos + 1))
}

/// An expression atom at `pos`: a parenthesised expression, a literal, a
/// path or a variable.
pub fn parse_atom(s: &[char], pos: usize) -> (r: Step<Expr>)
    requires
        pos <= s@.len(),
    ensures
        r matches Step::Done(_, e) ==> pos < e <= s@.len(),
        !(r is Fail),
        no_operand(s@, pos as int) ==> r is Miss,
        simple_atom_at(s@, pos as int) ==> r is Done,
        pos < s@.len() && s@[pos as int] == '(' ==> (r is Miss || r matches Step::Done(Expr::Group(_), _)),
        forall|e: int| pos < s@.len() && s@[pos as int] == '(' && plain_var_at(s@, skip_ws_end(s@, pos + 1), e)
            && skip_ws_end(s@, e) < s@.len() && s@[skip_ws_end(s@, e)] == ')' ==> (r matches Step::Done(
            Expr::Group(g),
            end,
        ) && end == skip_ws_end(s@, e) + 1 && (*g matches Expr::Var(v) && v@ == s@.subrange(
            skip_ws_end(s@, pos + 1),
            e,
        ))),
        forall|e: int| pos < s@.len() && s@[pos as int] == '"' && quoted_end(s@, pos + 1, '"') == Some(e)
            ==> (r matches Step::Done(Expr::StrLit(v), end) && v@ == s@.subrange(pos + 1, e) && end == e + 1),
        forall|e: int| pos < s@.len() && s@[pos as int] == '\'' && quoted_end(s@, pos + 1, '\'') == Some(e)
            ==> (r matches Step::Done(Expr::CharLit(v), end) && v@ == s@.subrange(pos + 1, e) && end == e + 1),
        forall|e: int| num_lit_end(s@, pos as int) == Some(e)
            ==> (r matches Step::Done(Expr::NumLit(v), end) && v@ == s@.subrange(pos as int, e) && end == e),
        forall|e: int| ident_at(s@, pos as int, e) && all_lower(s@, pos as int, e) && sep_end(s@, e) is None
            ==> (r matches Step::Done(a, end) && end == e && (if span_is(s@, pos as int, e, "true"@) {
                a == Expr::BoolLit(true)
            } else if span_is(s@, pos as int, e, "false"@) {
                a == Expr::BoolLit(false)
            } else {
                a matches Expr::Var(v) && v@ == s@.subrange(pos as int, e)
            })),
    decreases s@.len() - pos, 0int,
{
    if pos == s.len() {
        return Step::Miss;
    }
    if s[pos] == '(' {
        let a = skip_ws(s, pos + 1);
        proof { lemma_skip_ws_end(s@, pos + 1, a as int); }
        match parse_expr(s, a) {
            Step::Done(e, q) => {
                let b = skip_ws(s, q);
                proof { lemma_skip_ws_end(s@, q as int, b as int); }
                if b < s.len() && s[b] == ')' {
                    return Step::Done(Expr::Group(Box::new(e)), b + 1);
                }
                return Step::Miss;
            },
            _ => return Step::Miss,
        }
    }
    proof {
        crate::scan::lemma_quoted_end_bounds(s@, pos + 1, '"');
        crate::scan::lemma_quoted_end_bounds(s@, pos + 1, '\'');
    }
    if let Some(e) = str_lit(s, pos) {
        return Step::Done(Expr::StrLit(copy_range(s, pos + 1, e)), e + 1);
    }
    if let Some(e) = char_lit(s, pos) {
        return Step::Done(Expr::CharLit(copy_range(s, pos + 1, e)), e + 1);
    }
    proof {
        if crate::scan::is_digit(s@[pos as int]) {
            crate::scan::lemma_digits_end_bounds(s@, pos as int + 1);
            assert(crate::scan::digits_end(s@, pos as int) == crate::scan::digits_end(s@, pos + 1));
        }
    }
    if let Some(e) = num_lit(s, pos) {
        proof { crate::scan::lemma_num_lit_end(s@, pos as int); }
        return Step::Done(Expr::NumLit(copy_range(s, pos, e)), e);
    }
    proof {
        assert forall|e: int| ident_at(s@, pos as int, e) && !has_upper(s@, pos as int, e) && sep_end(s@, e) is None
            implies num_lit_end(s@, pos as int) is None by {
            crate::scan::lemma_digits_end_bounds(s@, pos as int);
            if crate::scan::digits_end(s@, pos as int) != pos {
                assert(crate::scan::is_digit(s@[pos as int]));
            }
        };
    }
    if let Some((segs, e)) = path(s, pos) {
        return Step::Done(Expr::Path(segs), e);
    }
    if let Some(e) = keyword(s, pos, "true") {
        proof {
            assert forall|f: int| ident_at(s@, pos as int, f) implies f == e by {
                crate::scan::lemma_ident_at_unique(s@, pos as int, f, e as int);
            };
        }
        return Step::Done(Expr::BoolLit(true), e);
    }
    if let Some(e) = keyword(s, pos, "false") {
        proof {
            assert forall|f: int| ident_at(s@, pos as int, f) implies f == e by {
                crate::scan::lemma_ident_at_unique(s@, pos as int, f, e as int);
            };
        }
        return Step::Done(Expr::BoolLit(false), e);
    }
    match identifier(s, pos) {
        Some(e) => {
            proof {
                assert forall|f: int| ident_at(s@, pos as int, f) implies f == e by {
                    crate::scan::lemma_ident_at_unique(s@, pos as int, f, e as int);
                };
            }
            Step::Done(Expr::Var(copy_range(s, pos, e)), e)
        },
        None => Step::Miss,
    }
}

/// A suffixed expression at `pos`: an atom followed by any number of
/// attribute accesses `.name`, indexes `[e]`, calls `(e, ...)` and filters
/// `| name` or `| name(args)`, applied left to right.
pub fn parse_filtered(s: &[char], pos: usize) -> (r: Step<Expr>)
    requires
        pos <= s@.len(),
    ensures
        r matches Step::Done(_, e) ==> pos < e <= s@.len(),
        !(r is Fail),
        no_operand(s@, pos as int) ==> r is Miss,
        simple_atom_at(s@, pos as int) ==> r is Done,
        forall|e: int| plain_var_at(s@, pos as int, e) ==> (r matches Step::Done(Expr::Var(v), end)
            && v@ == s@.subrange(pos as int, e) && end == e),
    decreases s@.len() - pos, 1int,
{
    let (mut expr, mut end) = match parse_atom(s, pos) {
        Step::Done(e, q) => (e, q),
        _ => return Step::Miss,
    };
    let mut more = true;
    while more
        invariant
            pos < end <= s@.len(),
            forall|e: int| plain_var_at(s@, pos as int, e) ==> (end == e && (expr matches Expr::Var(v)
                && v@ == s@.subrange(pos as int, e))),
        decreases s@.len() - end, if more { 1int } else { 0int },
    {
        more = false;
        let a = skip_ws(s, end);
        proof { lemma_skip_ws_end(s@, end as int, a as int); }
        if a < s.len() && s[a] == '|' && !(s.len() - a >= 2 && s[a + 1] == '|') {
            let b = skip_ws(s, a + 1);
            if let Some(n) = identifier(s, b) {
                if n < s.len() && s[n] == '(' {
                    proof { crate::scan::lemma_paren_scan_bounds(s@, n + 1, n + 1, 0, false, false); }
                    if let Some(c) = nested_parenthesis(s, n + 1) {
                        if c < s.len() && s[c] == ')' {
                            let args = copy_range(s, n + 1, c);
                            expr = Expr::Filter(copy_range(s, b, n), Some(args), Box::new(expr));
                            end = c + 1;
                            more = true;
                        }
                    }
                } else {
                    expr = Expr::Filter(copy_range(s, b, n), None, Box::new(expr));
                    end = n;
                    more = true;
                }
            }
        } else if end < s.len() && s[end] == '.' {
            let b = skip_ws(s, end + 1);
            if let Some(n) = identifier(s, b) {
                expr = Expr::Attr(Box::new(expr), copy_range(s, b, n));
                end = n;
                more = true;
            }
        } else if end < s.len() && s[end] == '[' {
            let b = skip_ws(s, end + 1);
            if let Step::Done(i, q) = parse_expr(s, b) {
                let c = skip_ws(s, q);
                if c < s.len() && s[c] == ']' {
                    expr = Expr::Index(Box::new(expr), Box::new(i));
                    end = c + 1;
                    more = true;
                }
            }
        } else if end < s.len() && s[end] == '(' {
            if let Some((args, q)) = parse_args(s, end) {
                expr = Expr::Call(Box::new(expr), args);
                end = q;
                more = true;
            }
        }
    }
    Step::Done(expr, end)
}

/// A call's arguments after the `(` at `open`: expressions separated by
/// `,`, then `)`. Returns them and the position after the `)`.
fn parse_args(s: &[char], open: usize) -> (r: Option<(Vec<Expr>, usize)>)
    requires
        open < s@.len(),
    ensures
        r matches Some((_, e)) ==> open < e <= s@.len(),
    decreases s@.len() - open, 0int,
{
    let n = s.len();
    let mut args: Vec<Expr> = Vec::new();
    let mut p = skip_ws(s, open + 1);
    if p < n && s[p] == ')' {
        return Some((args, p + 1));
    }
    loop
        invariant
            open < p <= s@.len(),
        decreases s@.len() - p,
    {
        let (e, q) = match parse_expr(s, p) {
            Step::Done(e, q) => (e, q),
            _ => return None,
        };
        args.push(e);
        let c = skip_ws(s, q);
        if c < s.len() && s[c] == ')' {
            return Some((args, c + 1));
        }
        if !(c < s.len() && s[c] == ',') {
            return None;
        }
        p = skip_ws(s, c + 1);
    }
}

/// A unary expression at `pos`: `!` or `-` before a unary expression, or a
/// suffixed expression.
pub fn parse_unary(s: &[char], pos: usize) -> (r: Step<Expr>)
    requires
        pos <= s@.len(),
    ensures
        r matches Step::Done(_, e) ==> pos < e <= s@.len(),
        !(r is Fail),
        no_operand(s@, pos as int) ==> r is Miss,
        operand_start(s@, pos as int) ==> r is Done,
        simple_atom_at(s@, pos as int) ==> r is Done,
        forall|e: int| plain_var_at(s@, pos as int, e) ==> (r matches Step::Done(Expr::Var(v), end)
            && v@ == s@.subrange(pos as int, e) && end == e),
    decreases s@.len() - pos, 2int,
{
    if pos < s.len() && (s[pos] == '!' || s[pos] == '-') {
        let b = skip_ws(s, pos + 1);
        proof { lemma_skip_ws_end(s@, pos + 1, b as int); }
        return match parse_unary(s, b) {
            Step::Done(e, q) => Step::Done(Expr::Unary(s[pos], Box::new(e)), q),
            _ => Step::Miss,
        };
    }
    parse_filtered(s, pos)
}

/// The length of the operator of precedence `level` at `p`, or 0 where none
/// stands there: 0 for `*`, `/`, `%`; 1 for `+`, `-`; 2 for `==`, `!=`,
/// `<=`, `>=`, `<`, `>`; 3 for `&&`; 4 for `||`.
pub open spec fn op_len(s: Seq<char>, p: int, level: int) -> int {
    let one = 0 <= p < s.len();
    let two = 0 <= p && p + 2 <= s.len();
    if level == 0 {
        if one && (s[p] == '*' || s[p] == '/' || s[p] == '%') { 1 } else { 0 }
    } else if level == 1 {
        if one && (s[p] == '+' || s[p] == '-') { 1 } else { 0 }
    } else if level == 2 {
        if two && (s[p] == '=' || s[p] == '!' || s[p] == '<' || s[p] == '>') && s[p + 1] == '=' {
            2
        } else if one && (s[p] == '<' || s[p] == '>') {
            1
        } else {
            0
        }
    } else if level == 3 {
        if two && s[p] == '&' && s[p + 1] == '&' { 2 } else { 0 }
    } else if level == 4 {
        if two && s[p] == '|' && s[p + 1] == '|' { 2 } else { 0 }
    } else {
        0
    }
}

/// The end of the operator of precedence `level` at `p`, if one stands there.
pub fn binary_op(s: &[char], p: usize, level: usize) -> (r: Option<usize>)
    requires
        p <= s@.len(),
    ensures
        r matches Some(e) ==> p < e <= s@.len() && e == p + op_len(s@, p as int, level as int),
        r is None <==> op_len(s@, p as int, level as int) == 0,
{
    let two = s.len() - p >= 2;
    if level == 0 {
        if p < s.len() && (s[p] == '*' || s[p] == '/' || s[p] == '%') {
            return Some(p + 1);
        }
    } else if level == 1 {
        if p < s.len() && (s[p] == '+' || s[p] == '-') {
            return Some(p + 1);
        }
    } else if level == 2 {
        if two && (s[p] == '=' || s[p] == '!' || s[p] == '<' || s[p] == '>') && s[p + 1] == '=' {
            return Some(p + 2);
        }
        if p < s.len() && (s[p] == '<' || s[p] == '>') {
            return Some(p + 1);
        }
    } else if level == 3 {
        if two && s[p] == '&' && s[p + 1] == '&' {
            return Some(p + 2);
        }
    } else if level == 4 {
        if two && s[p] == '|' && s[p + 1] == '|' {
            return Some(p + 2);
        }
    }
    None
}

/// A binary expression of precedence `level` or tighter at `pos`, operators
/// of one level grouping to the left. An operator whose right operand does
/// not parse is left unconsumed.
pub fn parse_binary(s: &[char], pos: usize, level: usize) -> (r: Step<Expr>)
    requires
        pos <= s@.len(),
        level <= 4,
    ensures
        r matches Step::Done(_, e) ==> pos < e <= s@.len(),
        !(r is Fail),
        no_operand(s@, pos as int) ==> r is Miss,
        operand_start(s@, pos as int) ==> r is Done,
        simple_atom_at(s@, pos as int) ==> r is Done,
        forall|e: int| plain_var_at(s@, pos as int, e) ==> (r matches Step::Done(Expr::Var(v), end)
            && v@ == s@.subrange(pos as int, e) && end == e),
    decreases s@.len() - pos, 3 + level,
{
    let first = if level == 0 { parse_unary(s, pos) } else { parse_binary(s, pos, level - 1) };
    let (mut expr, mut end) = match first {
        Step::Done(e, q) => (e, q),
        _ => return Step::Miss,
    };
    let mut more = true;
    while more
        invariant
            pos < end <= s@.len(),
            level <= 4,
            forall|e: int| plain_var_at(s@, pos as int, e) ==> (end == e && (expr matches Expr::Var(v)
                && v@ == s@.subrange(pos as int, e))),
        decreases s@.len() - end, if more { 1int } else { 0int },
    {
        more = false;
        let a = skip_ws(s, end);
        proof { lemma_skip_ws_end(s@, end as int, a as int); }
        if let Some(o) = binary_op(s, a, level) {
            let b = skip_ws(s, o);
            proof { lemma_skip_ws_end(s@, o as int, b as int); }
            let right = if level == 0 { parse_unary(s, b) } else { parse_binary(s, b, level - 1) };
            if let Step::Done(rhs, q) = right {
                expr = Expr::BinOp(copy_range(s, a, o), Box::new(expr), Box::new(rhs));
                end = q;
                more = true;
            }
        }
    }
    Step::Done(expr, end)
}

/// An expression at `pos`.
pub fn parse_expr(s: &[char], pos: usize) -> (r: Step<Expr>)
    requires
        pos <= s@.len(),
    ensures
        r matches Step::Done(_, e) ==> pos < e <= s@.len(),
        !(r is Fail),
        operand_start(s@, pos as int) ==> r is Done,
        simple_atom_at(s@, pos as int) ==> r is Done,
        forall|e: int| plain_var_at(s@, pos as int, e) ==> (r matches Step::Done(Expr::Var(v), end)
            && v@ == s@.subrange(pos as int, e) && end == e),
    decreases s@.len() - pos, 8int,
{
    parse_binary(s, pos, 4)
}

} // verus!

verus! {

/// The whitespace marker at `i`, if one stands there.
pub open spec fn marker_at(s: Seq<char>, i: int) -> Option<WhitespaceHandling> {
    if 0 <= i < s.len() { marker_handling(s[i]) } else { None }
}

/// Where the expression tag whose variable ends at `e` ends.
pub open spec fn var_tag_end(s: Seq<char>, e: int, d: Delims) -> int {
    match tag_end_spec(s, e, d.expr_end) {
        Some((_, end)) => end,
        None => 0,
    }
}

/// An expression tag at `pos` that holds a plain variable `s[a..e]` and
/// closes right after it, with or without a marker before its end delimiter.
pub open spec fn var_tag(s: Seq<char>, pos: int, d: Delims) -> Option<(int, int)> {
    let a = skip_ws_end(s, marker_end(s, pos + 2));
    match ident_end(s, a) {
        Some(e) => {
            if has_at(s, pos, d.expr_start) && !has_at(s, pos, d.comment_start) && plain_var_at(s, a, e)
                && tag_end_spec(s, e, d.expr_end) is Some {
                Some((a, e))
            } else {
                None
            }
        },
        None => None,
    }
}

/// The first index at or after `pos` where a tag starts, or the end.
pub open spec fn next_tag(s: Seq<char>, pos: int, d: Delims) -> int
    decreases s.len() - pos,
{
    if pos < 0 || pos >= s.len() || tag_start_at(s, pos, d) {
        pos
    } else {
        next_tag(s, pos + 1, d)
    }
}

proof fn lemma_next_tag(s: Seq<char>, pos: int, d: Delims)
    requires
        0 <= pos <= s.len(),
    ensures
        is_next_tag_start(s, pos, next_tag(s, pos, d), d),
    decreases s.len() - pos,
{
    if pos < s.len() && !tag_start_at(s, pos, d) {
        lemma_next_tag(s, pos + 1, d);
    }
}

/// A node of a template made of literal text and plain variable tags: a
/// literal run `s[from..to]`, or a variable tag at `pos` whose variable is
/// `s[a..e]`.
pub enum SimpleNode {
    Text(int, int),
    Var(int, int, int),
    /// A conditional with one branch: the `if` tag's markers, its plain
    /// variable test `s[a..e]`, its body, and the `endif` tag's markers.
    Cond(Option<WhitespaceHandling>, Option<WhitespaceHandling>, int, int, Seq<SimpleNode>, Option<WhitespaceHandling>, Option<WhitespaceHandling>),
}

/// The conditional whose `if` keyword ends at `p`, with the marker `m1`
/// after its start delimiter: a plain variable test, a body of literal runs
/// and plain variable tags, and an `endif` tag; and where it ends.
pub open spec fn cond_after(s: Seq<char>, m1: Option<WhitespaceHandling>, p: int, d: Delims) -> Option<(SimpleNode, int)> {
    let a = skip_ws_end(s, p);
    match ident_end(s, a) {
        Some(e) => if plain_var_at(s, a, e) {
            match tag_end_spec(s, e, d.block_end) {
                Some((m2, q)) => {
                    let run = simple_run(s, q, d);
                    if endif_at(s, run.1, d) {
                        match block_open_spec(s, run.1, d) {
                            Some((m3, k)) => match keyword_end(s, k, "endif"@) {
                                Some(ke) => match tag_end_spec(s, ke, d.block_end) {
                                    Some((m4, end)) => Some((SimpleNode::Cond(m1, m2, a, e, run.0, m3, m4), end)),
                                    None => None,
                                },
                                None => None,
                            },
                            None => None,
                        }
                    } else {
                        None
                    }
                },
                None => None,
            }
        } else {
            None
        },
        None => None,
    }
}

/// The conditional at `pos`, as `cond_after` describes it, and where it ends.
pub open spec fn cond_at(s: Seq<char>, pos: int, d: Delims) -> Option<(SimpleNode, int)> {
    if has_at(s, pos, d.comment_start) || has_at(s, pos, d.expr_start) {
        None
    } else {
        match block_open_spec(s, pos, d) {
            Some((m1, k)) => match keyword_end(s, k, "if"@) {
                Some(ki) => cond_after(s, m1, ki, d),
                None => None,
            },
            None => None,
        }
    }
}

/// The nodes of `s` from `pos` on, where all of it is literal runs and
/// plain variable tags.
pub open spec fn simple_nodes(s: Seq<char>, pos: int, d: Delims) -> Option<Seq<SimpleNode>>
    decreases s.len() - pos,
{
    if pos < 0 || pos >= s.len() {
        Some(seq![])
    } else if !tag_start_at(s, pos, d) {
        let q = next_tag(s, pos + 1, d);
        if pos < q <= s.len() {
            match simple_nodes(s, q, d) {
                Some(rest) => Some(seq![SimpleNode::Text(pos, q)] + rest),
                None => None,
            }
        } else {
            None
        }
    } else {
        match var_tag(s, pos, d) {
            Some((a, e)) => {
                let end = var_tag_end(s, e, d);
                if pos < end <= s.len() {
                    match simple_nodes(s, end, d) {
                        Some(rest) => Some(seq![SimpleNode::Var(pos, a, e)] + rest),
                        None => None,
                    }
                } else {
                    None
                }
            },
            None => match cond_at(s, pos, d) {
                Some((c, end)) => if pos < end <= s.len() {
                    match simple_nodes(s, end, d) {
                        Some(rest) => Some(seq![c] + rest),
                        None => None,
                    }
                } else {
                    None
                },
                None => None,
            },
        }
    }
}

/// The literal runs and plain variable tags of `s` from `pos` on, up to the
/// first other tag or the end, and the position where they stop.
pub open spec fn simple_run(s: Seq<char>, pos: int, d: Delims) -> (Seq<SimpleNode>, int)
    decreases s.len() - pos,
{
    if pos < 0 || pos >= s.len() {
        (seq![], pos)
    } else if !tag_start_at(s, pos, d) {
        let q = next_tag(s, pos + 1, d);
        if pos < q <= s.len() {
            let r = simple_run(s, q, d);
            (seq![SimpleNode::Text(pos, q)] + r.0, r.1)
        } else {
            (seq![], pos)
        }
    } else {
        match var_tag(s, pos, d) {
            Some((a, e)) => {
                let end = var_tag_end(s, e, d);
                if pos < end <= s.len() {
                    let r = simple_run(s, end, d);
                    (seq![SimpleNode::Var(pos, a, e)] + r.0, r.1)
                } else {
                    (seq![], pos)
                }
            },
            None => (seq![], pos),
        }
    }
}

/// `n` is the literal or variable node that `sn` describes in `s`.
pub open spec fn flat_matches(n: Node, sn: SimpleNode, s: Seq<char>) -> bool {
    match sn {
        SimpleNode::Text(from, to) => n matches Node::Lit(l) && is_split_of(l, s, from, to),
        SimpleNode::Var(pos, a, e) => n matches Node::Expr(ws, Expr::Var(v)) && ws.flush == marker_at(
            s,
            pos + 2,
        ) && ws.prepare == marker_at(s, skip_ws_end(s, e)) && v@ == s.subrange(a, e),
        SimpleNode::Cond(..) => false,
    }
}

/// `n` is the node that `sn` describes in `s`.
pub open spec fn node_matches(n: Node, sn: SimpleNode, s: Seq<char>) -> bool {
    match sn {
        SimpleNode::Cond(m1, m2, a, e, body, m3, m4) => n matches Node::Cond(branches, ws2) && branches@.len() == 1
            && branches@[0].ws == Ws { flush: m1, prepare: m2 } && (branches@[0].test matches Some(Expr::Var(v))
            && v@ == s.subrange(a, e)) && branches@[0].nodes@.len() == body.len() && (forall|i: int|
            0 <= i < body.len() ==> flat_matches(#[trigger] branches@[0].nodes@[i], body[i], s))
            && ws2 == Ws { flush: m3, prepare: m4 },
        _ => flat_matches(n, sn, s),
    }
}

/// An expression tag starts at `pos` and no expression end follows it.
pub open spec fn unclosed_expr_at(s: Seq<char>, pos: int, d: Delims) -> bool {
    &&& has_at(s, pos, d.expr_start)
    &&& !has_at(s, pos, d.comment_start)
    &&& forall|i: int| pos + 2 <= i ==> !has_at(s, i, d.expr_end)
}

/// An `endif` keyword at `k` is no other statement keyword.
proof fn lemma_endif_is_no_statement(s: Seq<char>, k: int, e: int)
    requires
        span_is(s, k, e, "endif"@),
    ensures
        !span_is(s, k, e, "if"@),
        !span_is(s, k, e, "for"@),
        !span_is(s, k, e, "raw"@),
        !span_is(s, k, e, "block"@),
        !span_is(s, k, e, "include"@),
        !span_is(s, k, e, "extends"@),
        !span_is(s, k, e, "let"@),
        !span_is(s, k, e, "call"@),
        !span_is(s, k, e, "macro"@),
        !span_is(s, k, e, "match"@),
        !span_is(s, k, e, "break"@),
        !span_is(s, k, e, "continue"@),
{
    reveal_strlit("endif");
    reveal_strlit("if");
    reveal_strlit("for");
    reveal_strlit("raw");
    reveal_strlit("block");
    reveal_strlit("include");
    reveal_strlit("extends");
    reveal_strlit("let");
    reveal_strlit("call");
    reveal_strlit("macro");
    reveal_strlit("match");
    reveal_strlit("break");
    reveal_strlit("continue");
    assert(s.subrange(k, e)[0] == 'e');
    assert(s.subrange(k, e).len() == 5);
    assert("extends"@.len() == 7);
}

/// A block tag at `p` whose keyword is `endif`: it closes a conditional
/// and starts no node.
pub open spec fn endif_at(s: Seq<char>, p: int, d: Delims) -> bool {
    &&& !has_at(s, p, d.comment_start)
    &&& !has_at(s, p, d.expr_start)
    &&& block_open_spec(s, p, d) matches Some((_, k)) && keyword_end(s, k, "endif"@) is Some
}

/// A block tag start at `p` with no keyword after it.
pub open spec fn dangling_block_at(s: Seq<char>, p: int, d: Delims) -> bool {
    &&& !has_at(s, p, d.comment_start)
    &&& !has_at(s, p, d.expr_start)
    &&& block_open_spec(s, p, d) matches Some((_, k)) && ident_end(s, k) is None
}

/// A position where a run of literal text and plain variable tags stops
/// without a node: a closing `endif` tag or a block tag start with no
/// keyword.
pub open spec fn run_stops_at(s: Seq<char>, p: int, d: Delims) -> bool {
    endif_at(s, p, d) || dangling_block_at(s, p, d)
}

/// The state after a parse step is the state before it.
pub open spec fn same_state(a: State, b: State) -> bool {
    a.loop_depth == b.loop_depth && a.delims == b.delims
}

/// A comment tag at `pos`: skipped up to the first comment end.
fn parse_comment(s: &[char], pos: usize, d: Delims) -> (r: Step<Node>)
    requires
        pos + 2 <= s@.len(),
        has_at(s@, pos as int, d.comment_start),
    ensures
        !(r matches Step::Done(Node::Lit(_), _)),
        r matches Step::Done(_, e) ==> pos < e <= s@.len(),
        r matches Step::Fail(e) ==> e <= s@.len(),
        forall|c: int| pos + 3 <= c && has_at(s@, c, d.comment_end) ==> (r matches Step::Done(
            Node::Comment(_),
            _,
        )),
{
    let n = s.len();
    let (m1, p1) = marker(s, pos + 2);
    let mut c = p1;
    while c < s.len() && !tag(s, c, d.comment_end)
        invariant
            p1 <= c <= s@.len(),
            p1 <= pos + 3,
            forall|j: int| p1 <= j < c ==> !has_at(s@, j, d.comment_end),
        decreases s@.len() - c,
    {
        c = c + 1;
    }
    if c == s.len() {
        proof {
            assert forall|c2: int| pos + 3 <= c2 && has_at(s@, c2, d.comment_end) implies false by {
                assert(!has_at(s@, c2, d.comment_end));
            };
        }
        return Step::Fail(skip_ws(s, p1));
    }
    let m2 = if c > p1 { WhitespaceHandling::from_marker(s[c - 1]) } else { None };
    Step::Done(Node::Comment(Ws::new(m1, m2)), c + 2)
}

/// An expression tag at `pos`. After its start delimiter a failure is at
/// the start of the expression.
fn parse_expr_tag(s: &[char], pos: usize, d: Delims) -> (r: Step<Node>)
    requires
        pos + 2 <= s@.len(),
        has_at(s@, pos as int, d.expr_start),
    ensures
        !(r matches Step::Done(Node::Lit(_), _)),
        r matches Step::Done(_, e) ==> pos < e <= s@.len(),
        r matches Step::Fail(e) ==> e == skip_ws_end(s@, marker_end(s@, pos + 2)) && e <= s@.len(),
        (forall|i: int| pos + 2 <= i ==> !has_at(s@, i, d.expr_end)) ==> r is Fail,
        forall|a: int, e: int| var_tag(s@, pos as int, d) == Some((a, e)) ==> (r matches Step::Done(n, end)
            && end == var_tag_end(s@, e, d) && node_matches(n, SimpleNode::Var(pos as int, a, e), s@)),
        !(r is Miss),
{
    let n = s.len();
    let (m1, p1) = marker(s, pos + 2);
    let a = skip_ws(s, p1);
    proof { lemma_skip_ws_end(s@, p1 as int, a as int); }
    proof {
        if let Some((a0, e0)) = var_tag(s@, pos as int, d) {
            assert(a0 == a);
            crate::scan::lemma_skip_ws_end_bounds(s@, e0);
        }
    }
    match parse_expr(s, a) {
        Step::Done(e, q) => match tag_end(s, q, d.expr_end) {
            Some((m2, end)) => Step::Done(Node::Expr(Ws::new(m1, m2), e), end),
            None => Step::Fail(a),
        },
        _ => Step::Fail(a),
    }
}

/// The nodes from `pos` on, up to the end of the input or to the first
/// position where no node starts.
pub fn parse_nodes(s: &[char], pos: usize, st: &mut State) -> (r: Result<(Vec<Node>, usize), usize>)
    requires
        pos <= s@.len(),
    ensures
        same_state(*final(st), *old(st)),
        r matches Ok((_, e)) ==> pos <= e <= s@.len(),
        r matches Err(e) ==> e <= s@.len(),
        run_stops_at(s@, simple_run(s@, pos as int, old(st).delims).1, old(st).delims) ==> (r matches Ok((nodes, end))
            && end == simple_run(s@, pos as int, old(st).delims).1 && nodes@.len() == simple_run(
            s@,
            pos as int,
            old(st).delims,
        ).0.len() && forall|i: int|
            0 <= i < nodes@.len() ==> flat_matches(
                #[trigger] nodes@[i],
                simple_run(s@, pos as int, old(st).delims).0[i],
                s@,
            )),
        simple_nodes(s@, pos as int, old(st).delims) matches Some(sns) ==> (r matches Ok((nodes, end))
            && end == s@.len() && nodes@.len() == sns.len() && forall|i: int|
            0 <= i < sns.len() ==> node_matches(#[trigger] nodes@[i], sns[i], s@)),
        unclosed_expr_at(s@, simple_run(s@, pos as int, old(st).delims).1, old(st).delims) ==> r == Err::<
            (Vec<Node>, usize),
            usize,
        >(skip_ws_end(s@, marker_end(s@, simple_run(s@, pos as int, old(st).delims).1 + 2)) as usize),
        unclosed_expr_at(s@, pos as int, old(st).delims) ==> r == Err::<(Vec<Node>, usize), usize>(
            skip_ws_end(s@, marker_end(s@, pos + 2)) as usize,
        ),
        (forall|i: int| pos <= i < s@.len() ==> !tag_start_at(s@, i, old(st).delims)) ==> (
        r matches Ok((nodes, e)) && e == s@.len() && (if pos < s@.len() {
            nodes@.len() == 1 && (nodes@[0] matches Node::Lit(l) && is_split_of(
                l,
                s@,
                pos as int,
                s@.len() as int,
            ))
        } else {
            nodes@.len() == 0
        })),
    decreases s@.len() - pos, 3int,
{
    let ghost st0 = *st;
    let mut nodes: Vec<Node> = Vec::new();
    let mut cur = pos;
    let ghost mut done: Seq<SimpleNode> = Seq::empty();
    let ghost mut run_done: Seq<SimpleNode> = Seq::empty();
    loop
        invariant
            pos <= cur <= s@.len(),
            st0 == *old(st),
            same_state(*st, st0),
            unclosed_expr_at(s@, pos as int, st0.delims) ==> cur == pos,
            run_stops_at(s@, simple_run(s@, pos as int, st0.delims).1, st0.delims) || unclosed_expr_at(
                s@,
                simple_run(s@, pos as int, st0.delims).1,
                st0.delims,
            ) ==> (simple_run(s@, cur as int, st0.delims).1
                == simple_run(s@, pos as int, st0.delims).1 && simple_run(s@, pos as int, st0.delims).0 == run_done
                + simple_run(s@, cur as int, st0.delims).0 && run_done.len() == nodes@.len() && forall|i: int|
                0 <= i < run_done.len() ==> flat_matches(#[trigger] nodes@[i], run_done[i], s@)),
            simple_nodes(s@, pos as int, st0.delims) is Some ==> (simple_nodes(s@, cur as int, st0.delims) is Some
                && simple_nodes(s@, pos as int, st0.delims)->0 == done + simple_nodes(s@, cur as int, st0.delims)->0
                && done.len() == nodes@.len() && forall|i: int|
                0 <= i < done.len() ==> node_matches(#[trigger] nodes@[i], done[i], s@)),
            (forall|i: int| pos <= i < s@.len() ==> !tag_start_at(s@, i, st0.delims)) ==> (
            (cur == pos && nodes@.len() == 0) || (cur == s@.len() && pos < s@.len() && nodes@.len()
                == 1 && (nodes@[0] matches Node::Lit(l) && is_split_of(
                l,
                s@,
                pos as int,
                s@.len() as int,
            )))),
        decreases s@.len() - cur,
    {
        proof {
            if (forall|i: int| pos <= i < s@.len() ==> !tag_start_at(s@, i, st0.delims)) && cur < s@.len() {
                assert(is_next_tag_start(s@, cur as int, s@.len() as int, st.delims));
            }
        }
        let ghost sim = simple_nodes(s@, pos as int, st0.delims) is Some && cur < s@.len();
        let ghost x: SimpleNode = if sim {
            simple_nodes(s@, cur as int, st0.delims)->0[0]
        } else {
            SimpleNode::Text(0, 0)
        };
        let ghost stop = simple_run(s@, pos as int, st0.delims).1;
        let ghost runs = (run_stops_at(s@, stop, st0.delims) || unclosed_expr_at(s@, stop, st0.delims)) && cur != stop;
        let ghost y: SimpleNode = if runs {
            simple_run(s@, cur as int, st0.delims).0[0]
        } else {
            SimpleNode::Text(0, 0)
        };
        proof {
            if runs && !tag_start_at(s@, cur as int, st0.delims) {
                lemma_next_tag(s@, cur as int, st0.delims);
                lemma_next_tag(s@, cur + 1, st0.delims);
            }
            if sim && !tag_start_at(s@, cur as int, st0.delims) {
                lemma_next_tag(s@, cur as int, st0.delims);
                lemma_next_tag(s@, cur + 1, st0.delims);
            }
        }
        match parse_node(s, cur, st) {
            Step::Done(n, q) => {
                let ghost old_nodes = nodes@;
                nodes.push(n);
                proof {
                    if runs {
                        let rest = simple_run(s@, q as int, st0.delims).0;
                        assert(simple_run(s@, cur as int, st0.delims).0 == seq![y] + rest);
                        assert(simple_run(s@, pos as int, st0.delims).0 =~= run_done.push(y) + rest);
                        run_done = run_done.push(y);
                    }
                    if sim {
                        let rest = simple_nodes(s@, q as int, st0.delims)->0;
                        assert(simple_nodes(s@, cur as int, st0.delims)->0 == seq![x] + rest);
                        assert(simple_nodes(s@, pos as int, st0.delims)->0 =~= done.push(x) + rest);
                        assert(nodes@ == old_nodes.push(n));
                        done = done.push(x);
                    }
                }
                cur = q;
            },
            Step::Miss => {
                return Ok((nodes, cur));
            },
            Step::Fail(e) => {
                return Err(e);
            },
        }
    }
}

/// One node at `pos`: literal text up to the next tag start, or a tag.
pub fn parse_node(s: &[char], pos: usize, st: &mut State) -> (r: Step<Node>)
    requires
        pos <= s@.len(),
    ensures
        same_state(*final(st), *old(st)),
        r matches Step::Done(_, e) ==> pos < e <= s@.len(),
        r matches Step::Fail(e) ==> e <= s@.len(),
        pos == s@.len() ==> r is Miss,
        tag_start_at(s@, pos as int, old(st).delims) ==> !(r matches Step::Done(Node::Lit(_), _)),
        run_stops_at(s@, pos as int, old(st).delims) ==> r is Miss,
        forall|sn: SimpleNode, end: int| cond_at(s@, pos as int, old(st).delims) == Some((sn, end)) ==> (r matches Step::Done(
            n,
            en,
        ) && en == end && node_matches(n, sn, s@)),
        forall|a: int, e: int| var_tag(s@, pos as int, old(st).delims) == Some((a, e)) ==> (r matches Step::Done(
            n,
            end,
        ) && end == var_tag_end(s@, e, old(st).delims) && node_matches(n, SimpleNode::Var(pos as int, a, e), s@)),
        unclosed_expr_at(s@, pos as int, old(st).delims) ==> r == Step::<Node>::Fail(
            skip_ws_end(s@, marker_end(s@, pos + 2)) as usize,
        ),
        has_at(s@, pos as int, old(st).delims.expr_start) && !has_at(
            s@,
            pos as int,
            old(st).delims.comment_start,
        ) ==> !(r is Miss) && (r matches Step::Fail(e) ==> e == skip_ws_end(
            s@,
            marker_end(s@, pos + 2),
        )),
        forall|c: int|
            has_at(s@, pos as int, old(st).delims.comment_start) && pos + 3 <= c && has_at(
                s@,
                c,
                old(st).delims.comment_end,
            ) ==> (r matches Step::Done(Node::Comment(_), _)),
        forall|q: int| is_next_tag_start(s@, pos as int, q, old(st).delims) && q > pos ==> (r matches Step::Done(
            n,
            e,
        ) && e == q && (n matches Node::Lit(l) && is_split_of(l, s@, pos as int, q))),
    decreases s@.len() - pos, 2int,
{
    if pos == s.len() {
        return Step::Miss;
    }
    let d = st.delims;
    let q = next_tag_start(s, pos, d);
    if q > pos {
        proof {
            assert(!tag_start_at(s@, pos as int, d));
            assert forall|q2: int| is_next_tag_start(s@, pos as int, q2, d) implies q2 == q by {
                if q2 < q { assert(!tag_start_at(s@, q2, d)); }
                if q2 > q { assert(!tag_start_at(s@, q as int, d)); }
            };
        }
        return Step::Done(Node::Lit(split_ws_parts(s, pos, q)), q);
    }
    proof {
        assert forall|q2: int| is_next_tag_start(s@, pos as int, q2, d) implies q2 == pos by {
            if q2 > pos { assert(!tag_start_at(s@, pos as int, d)); }
        };
    }
    if tag(s, pos, d.comment_start) {
        return parse_comment(s, pos, d);
    }
    if tag(s, pos, d.expr_start) {
        return parse_expr_tag(s, pos, d);
    }
    parse_block_tag(s, pos, st)
}

/// A statement tag at `pos`, with what it encloses. A tag whose keyword
/// starts no statement is no match here: it may close an enclosing one.
fn parse_block_tag(s: &[char], pos: usize, st: &mut State) -> (r: Step<Node>)
    requires
        pos <= s@.len(),
    ensures
        !(r matches Step::Done(Node::Lit(_), _)),
        same_state(*final(st), *old(st)),
        r matches Step::Done(_, e) ==> pos < e <= s@.len(),
        r matches Step::Fail(e) ==> e <= s@.len(),
        (block_open_spec(s@, pos as int, old(st).delims) matches Some((_, k)) && keyword_end(s@, k, "endif"@) is Some)
            ==> r is Miss,
        forall|sn: SimpleNode, end: int| cond_at(s@, pos as int, old(st).delims) == Some((sn, end)) ==> (r matches Step::Done(
            n,
            en,
        ) && en == end && node_matches(n, sn, s@)),
        (block_open_spec(s@, pos as int, old(st).delims) matches Some((_, k)) && ident_end(s@, k) is None) ==> r is Miss,
    decreases s@.len() - pos, 1int,
{
    let (m1, k) = match block_open(s, pos, st.delims) {
        Some(o) => o,
        None => return Step::Miss,
    };
    proof {
        if let Some(ke) = keyword_end(s@, k as int, "endif"@) {
            lemma_endif_is_no_statement(s@, k as int, ke);
        }
    }
    if let Some(e) = keyword(s, k, "if") {
        return parse_cond(s, pos, m1, e, st);
    }
    if let Some(e) = keyword(s, k, "for") {
        return parse_loop(s, pos, m1, e, st);
    }
    if let Some(e) = keyword(s, k, "raw") {
        return parse_raw(s, pos, m1, e, st.delims);
    }
    if let Some(e) = keyword(s, k, "block") {
        return parse_block_def(s, pos, m1, e, st);
    }
    let inc = keyword(s, k, "include");
    let ext = keyword(s, k, "extends");
    if inc.is_some() || ext.is_some() {
        let e = match inc {
            Some(e) => e,
            None => match ext {
                Some(e) => e,
                None => return Step::Miss,
            },
        };
        let a = skip_ws(s, e);
        proof { crate::scan::lemma_quoted_end_bounds(s@, a + 1, '"'); }
        let n = s.len();
        let c = match str_lit(s, a) {
            Some(c) => c,
            None => return Step::Fail(a),
        };
        return match tag_end(s, c + 1, st.delims.block_end) {
            Some((m2, end)) => {
                let target = copy_range(s, a + 1, c);
                if inc.is_some() {
                    Step::Done(Node::Include(Ws::new(m1, m2), target), end)
                } else {
                    Step::Done(Node::Extends(Ws::new(m1, m2), target), end)
                }
            },
            None => Step::Fail(a),
        };
    }
    if let Some(e) = keyword(s, k, "let") {
        return parse_let(s, m1, e, st.delims);
    }
    if let Some(e) = keyword(s, k, "call") {
        let a = skip_ws(s, e);
        let n = match identifier(s, a) {
            Some(n) => n,
            None => return Step::Fail(a),
        };
        if !(n < s.len() && s[n] == '(') {
            return Step::Fail(a);
        }
        let (args, q) = match parse_args(s, n) {
            Some(t) => t,
            None => return Step::Fail(a),
        };
        return match tag_end(s, q, st.delims.block_end) {
            Some((m2, end)) => Step::Done(Node::Call(Ws::new(m1, m2), copy_range(s, a, n), args), end),
            None => Step::Fail(a),
        };
    }
    if let Some(e) = keyword(s, k, "macro") {
        return parse_macro(s, pos, m1, e, st);
    }
    if let Some(e) = keyword(s, k, "match") {
        return parse_match(s, pos, m1, e, st);
    }
    let brk = keyword(s, k, "break");
    let cont = keyword(s, k, "continue");
    let e = match brk {
        Some(e) => e,
        None => match cont {
            Some(e) => e,
            None => return Step::Miss,
        },
    };
    if !st.is_in_loop() {
        return Step::Fail(k);
    }
    match tag_end(s, e, st.delims.block_end) {
        Some((m2, end)) => {
            if brk.is_some() {
                Step::Done(Node::Break(Ws::new(m1, m2)), end)
            } else {
                Step::Done(Node::Continue(Ws::new(m1, m2)), end)
            }
        },
        None => Step::Fail(k),
    }
}

/// The closing tag `{% <kw> %}` at `p`, if it stands there: its marker
/// after the start delimiter, the end of its keyword, and its end.
fn closing_tag(s: &[char], p: usize, d: Delims, kw: &str) -> (r: Option<(Ws, usize)>)
    requires
        p <= s@.len(),
    ensures
        r matches Some((_, e)) ==> p + 4 <= e <= s@.len(),
{
    let (m1, k) = match block_open(s, p, d) {
        Some(o) => o,
        None => return None,
    };
    let e = match keyword(s, k, kw) {
        Some(e) => e,
        None => return None,
    };
    match tag_end(s, e, d.block_end) {
        Some((m2, end)) => Some((Ws::new(m1, m2), end)),
        None => None,
    }
}

/// A raw block whose `raw` tag starts at `pos`; `p` is the end of the `raw`
/// keyword. Its text runs verbatim up to the first `endraw` tag.
fn parse_raw(s: &[char], pos: usize, m1: Option<WhitespaceHandling>, p: usize, d: Delims) -> (r: Step<Node>)
    requires
        pos < p <= s@.len(),
    ensures
        !(r matches Step::Done(Node::Lit(_), _)),
        r matches Step::Done(_, e) ==> pos < e <= s@.len(),
        r matches Step::Fail(e) ==> e <= s@.len(),
{
    let (m2, q) = match tag_end(s, p, d.block_end) {
        Some(t) => t,
        None => return Step::Fail(skip_ws(s, p)),
    };
    let mut c = q;
    while c < s.len()
        invariant
            q <= c <= s@.len(),
            pos < q,
        decreases s@.len() - c,
    {
        if let Some((ws2, end)) = closing_tag(s, c, d, "endraw") {
            return Step::Done(Node::Raw(Ws::new(m1, m2), split_ws_parts(s, q, c), ws2), end);
        }
        c = c + 1;
    }
    Step::Fail(q)
}

/// A named block whose `block` tag starts at `pos`; `p` is the end of the
/// `block` keyword. Its closing `endblock` tag may repeat the name.
fn parse_block_def(s: &[char], pos: usize, m1: Option<WhitespaceHandling>, p: usize, st: &mut State) -> (r: Step<Node>)
    requires
        pos < p <= s@.len(),
    ensures
        !(r matches Step::Done(Node::Lit(_), _)),
        same_state(*final(st), *old(st)),
        r matches Step::Done(_, e) ==> pos < e <= s@.len(),
        r matches Step::Fail(e) ==> e <= s@.len(),
    decreases s@.len() - pos, 0int,
{
    let a = skip_ws(s, p);
    let n = match identifier(s, a) {
        Some(n) => n,
        None => return Step::Fail(a),
    };
    let (m2, q) = match tag_end(s, n, st.delims.block_end) {
        Some(t) => t,
        None => return Step::Fail(a),
    };
    let (nodes, b) = match parse_nodes(s, q, st) {
        Ok(t) => t,
        Err(e) => return Step::Fail(e),
    };
    let (m3, k) = match block_open(s, b, st.delims) {
        Some(o) => o,
        None => return Step::Fail(b),
    };
    let e = match keyword(s, k, "endblock") {
        Some(e) => e,
        None => return Step::Fail(k),
    };
    let f = skip_ws(s, e);
    let g = match identifier(s, f) {
        Some(g) => g,
        None => e,
    };
    match tag_end(s, g, st.delims.block_end) {
        Some((m4, end)) => Step::Done(
            Node::BlockDef(BlockDef { ws1: Ws::new(m1, m2), name: copy_range(s, a, n), nodes, ws2: Ws::new(m3, m4) }),
            end,
        ),
        None => Step::Fail(k),
    }
}

/// A `let` tag after its keyword, which ends at `p`: a name, and optionally
/// `=` and a value.
fn parse_let(s: &[char], m1: Option<WhitespaceHandling>, p: usize, d: Delims) -> (r: Step<Node>)
    requires
        0 < p <= s@.len(),
    ensures
        !(r matches Step::Done(Node::Lit(_), _)),
        r matches Step::Done(_, e) ==> p < e <= s@.len(),
        r matches Step::Fail(e) ==> e <= s@.len(),
{
    let a = skip_ws(s, p);
    let n = match identifier(s, a) {
        Some(n) => n,
        None => return Step::Fail(a),
    };
    let b = skip_ws(s, n);
    let (value, q) = if b < s.len() && s[b] == '=' {
        let c = skip_ws(s, b + 1);
        match parse_expr(s, c) {
            Step::Done(v, q) => (Some(v), q),
            _ => return Step::Fail(a),
        }
    } else {
        (None, n)
    };
    match tag_end(s, q, d.block_end) {
        Some((m2, end)) => Step::Done(Node::Let(Ws::new(m1, m2), copy_range(s, a, n), value), end),
        None => Step::Fail(a),
    }
}

/// A macro's parameter list after the `(` at `open`: names separated by
/// `,`, then `)`. Returns them and the position after the `)`.
fn parse_params(s: &[char], open: usize) -> (r: Option<(Vec<Vec<char>>, usize)>)
    requires
        open < s@.len(),
    ensures
        r matches Some((_, e)) ==> open < e <= s@.len(),
{
    let n = s.len();
    let mut params: Vec<Vec<char>> = Vec::new();
    let mut p = skip_ws(s, open + 1);
    if p < n && s[p] == ')' {
        return Some((params, p + 1));
    }
    loop
        invariant
            open < p <= s@.len(),
        decreases s@.len() - p,
    {
        let e = match identifier(s, p) {
            Some(e) => e,
            None => return None,
        };
        params.push(copy_range(s, p, e));
        let c = skip_ws(s, e);
        if c < s.len() && s[c] == ')' {
            return Some((params, c + 1));
        }
        if !(c < s.len() && s[c] == ',') {
            return None;
        }
        p = skip_ws(s, c + 1);
    }
}

/// A macro definition whose `macro` tag starts at `pos`; `p` is the end of
/// the `macro` keyword.
fn parse_macro(s: &[char], pos: usize, m1: Option<WhitespaceHandling>, p: usize, st: &mut State) -> (r: Step<Node>)
    requires
        pos < p <= s@.len(),
    ensures
        !(r matches Step::Done(Node::Lit(_), _)),
        same_state(*final(st), *old(st)),
        r matches Step::Done(_, e) ==> pos < e <= s@.len(),
        r matches Step::Fail(e) ==> e <= s@.len(),
    decreases s@.len() - pos, 0int,
{
    let a = skip_ws(s, p);
    let n = match identifier(s, a) {
        Some(n) => n,
        None => return Step::Fail(a),
    };
    if !(n < s.len() && s[n] == '(') {
        return Step::Fail(a);
    }
    let (params, b) = match parse_params(s, n) {
        Some(t) => t,
        None => return Step::Fail(a),
    };
    let (m2, q) = match tag_end(s, b, st.delims.block_end) {
        Some(t) => t,
        None => return Step::Fail(a),
    };
    let (nodes, c) = match parse_nodes(s, q, st) {
        Ok(t) => t,
        Err(e) => return Step::Fail(e),
    };
    match closing_tag(s, c, st.delims, "endmacro") {
        Some((ws2, end)) => Step::Done(
            Node::Macro(Macro { ws1: Ws::new(m1, m2), name: copy_range(s, a, n), params, nodes, ws2 }),
            end,
        ),
        None => Step::Fail(c),
    }
}

/// A pattern match whose `match` tag starts at `pos`; `p` is the end of the
/// `match` keyword. Only whitespace may stand between the `match` tag and
/// the first `when` tag.
fn parse_match(s: &[char], pos: usize, m1: Option<WhitespaceHandling>, p: usize, st: &mut State) -> (r: Step<Node>)
    requires
        pos < p <= s@.len(),
    ensures
        !(r matches Step::Done(Node::Lit(_), _)),
        same_state(*final(st), *old(st)),
        r matches Step::Done(_, e) ==> pos < e <= s@.len(),
        r matches Step::Fail(e) ==> e <= s@.len(),
    decreases s@.len() - pos, 0int,
{
    let a = skip_ws(s, p);
    let (expr, b) = match parse_expr(s, a) {
        Step::Done(e, b) => (e, b),
        _ => return Step::Fail(a),
    };
    let (m2, q0) = match tag_end(s, b, st.delims.block_end) {
        Some(t) => t,
        None => return Step::Fail(a),
    };
    let mut arms: Vec<When> = Vec::new();
    let mut q = skip_ws(s, q0);
    let ghost st0 = *st;
    loop
        invariant
            pos < q <= s@.len(),
            st0 == *old(st),
            same_state(*st, st0),
        decreases s@.len() - q,
    {
        if let Some((ws2, end)) = closing_tag(s, q, st.delims, "endmatch") {
            return Step::Done(Node::Match(Match { ws1: Ws::new(m1, m2), expr, arms, ws2 }), end);
        }
        let (m3, k) = match block_open(s, q, st.delims) {
            Some(o) => o,
            None => return Step::Fail(q),
        };
        let w = match keyword(s, k, "when") {
            Some(w) => w,
            None => return Step::Fail(k),
        };
        let c = skip_ws(s, w);
        let (pattern, d) = match parse_expr(s, c) {
            Step::Done(t, d) => (t, d),
            _ => return Step::Fail(c),
        };
        let (m4, t) = match tag_end(s, d, st.delims.block_end) {
            Some(t) => t,
            None => return Step::Fail(c),
        };
        let (nodes, e) = match parse_nodes(s, t, st) {
            Ok(x) => x,
            Err(e) => return Step::Fail(e),
        };
        arms.push(When { ws: Ws::new(m3, m4), pattern, nodes });
        q = e;
    }
}

/// A conditional whose `if` tag starts at `pos`; `p` is the end of the `if`
/// keyword.
fn parse_cond(s: &[char], pos: usize, m1: Option<WhitespaceHandling>, p: usize, st: &mut State) -> (r: Step<Node>)
    requires
        pos < p <= s@.len(),
    ensures
        !(r matches Step::Done(Node::Lit(_), _)),
        same_state(*final(st), *old(st)),
        r matches Step::Done(_, e) ==> pos < e <= s@.len(),
        r matches Step::Fail(e) ==> e <= s@.len(),
        forall|sn: SimpleNode, end: int| cond_after(s@, m1, p as int, old(st).delims) == Some((sn, end)) ==> (r matches Step::Done(
            n,
            en,
        ) && en == end && node_matches(n, sn, s@)),
    decreases s@.len() - pos, 0int,
{
    let a = skip_ws(s, p);
    proof { lemma_skip_ws_end(s@, p as int, a as int); }
    let ghost cp = cond_after(s@, m1, p as int, st.delims);
    let ghost ge = match ident_end(s@, a as int) { Some(e) => e, None => 0 };
    let test = match parse_expr(s, a) {
        Step::Done(t, q) => (t, q),
        _ => return Step::Fail(a),
    };
    let (m2, q) = match tag_end(s, test.1, st.delims.block_end) {
        Some(t) => t,
        None => return Step::Fail(a),
    };
    proof {
        if cp is Some {
            assert(plain_var_at(s@, a as int, ge));
            assert(test.1 == ge);
        }
    }
    let mut branches: Vec<CondBranch> = Vec::new();
    let mut cur_ws = Ws::new(m1, m2);
    let mut cur_test: Option<Expr> = Some(test.0);
    let mut seen_else = false;
    let mut q = q;
    let ghost st0 = *st;
    let ghost q0 = q as int;
    loop
        invariant
            pos < q <= s@.len(),
            st0 == *old(st),
            same_state(*st, st0),
            cp == cond_after(s@, m1, p as int, st0.delims),
            a == skip_ws_end(s@, p as int),
            cp is Some ==> ident_end(s@, a as int) == Some(ge) && plain_var_at(s@, a as int, ge),
            cp is Some ==> (branches@.len() == 0 && q == q0 && cur_ws == Ws { flush: m1, prepare: m2 }
                && (cur_test matches Some(Expr::Var(v)) && v@ == s@.subrange(a as int, ge)) && tag_end_spec(
                s@,
                ge,
                st0.delims.block_end,
            ) == Some((m2, q0))),
        decreases s@.len() - q,
    {
        let (nodes, b) = match parse_nodes(s, q, st) {
            Ok(t) => t,
            Err(e) => return Step::Fail(e),
        };
        branches.push(CondBranch { ws: cur_ws, test: cur_test, nodes });
        let (m, k) = match block_open(s, b, st.delims) {
            Some(o) => o,
            None => return Step::Fail(b),
        };
        if let Some(e) = keyword(s, k, "endif") {
            return match tag_end(s, e, st.delims.block_end) {
                Some((m3, end)) => Step::Done(Node::Cond(branches, Ws::new(m, m3)), end),
                None => Step::Fail(k),
            };
        }
        if seen_else {
            return Step::Fail(k);
        }
        if let Some(e) = keyword(s, k, "elif") {
            let a2 = skip_ws(s, e);
            let t = match parse_expr(s, a2) {
                Step::Done(t, q2) => (t, q2),
                _ => return Step::Fail(a2),
            };
            match tag_end(s, t.1, st.delims.block_end) {
                Some((m3, end)) => {
                    cur_ws = Ws::new(m, m3);
                    cur_test = Some(t.0);
                    q = end;
                },
                None => return Step::Fail(a2),
            }
        } else if let Some(e) = keyword(s, k, "else") {
            match tag_end(s, e, st.delims.block_end) {
                Some((m3, end)) => {
                    cur_ws = Ws::new(m, m3);
                    cur_test = None;
                    seen_else = true;
                    q = end;
                },
                None => return Step::Fail(k),
            }
        } else {
            return Step::Fail(k);
        }
    }
}

/// A loop whose `for` tag starts at `pos`; `p` is the end of the `for`
/// keyword. The body is parsed one loop level deeper, and the level is
/// restored whether the body parses or not.
fn parse_loop(s: &[char], pos: usize, m1: Option<WhitespaceHandling>, p: usize, st: &mut State) -> (r: Step<Node>)
    requires
        pos < p <= s@.len(),
    ensures
        !(r matches Step::Done(Node::Lit(_), _)),
        same_state(*final(st), *old(st)),
        r matches Step::Done(_, e) ==> pos < e <= s@.len(),
        r matches Step::Fail(e) ==> e <= s@.len(),
    decreases s@.len() - pos, 0int,
{
    let a = skip_ws(s, p);
    let v = match identifier(s, a) {
        Some(v) => v,
        None => return Step::Fail(a),
    };
    let b = skip_ws(s, v);
    let i = match keyword(s, b, "in") {
        Some(i) => i,
        None => return Step::Fail(a),
    };
    let c = skip_ws(s, i);
    let iter = match parse_expr(s, c) {
        Step::Done(t, q) => (t, q),
        _ => return Step::Fail(a),
    };
    let (m2, q) = match tag_end(s, iter.1, st.delims.block_end) {
        Some(t) => t,
        None => return Step::Fail(a),
    };
    if st.loop_depth == usize::MAX {
        return Step::Fail(a);
    }
    st.enter_loop();
    let body = parse_nodes(s, q, st);
    st.leave_loop();
    let (nodes, b2) = match body {
        Ok(t) => t,
        Err(e) => return Step::Fail(e),
    };
    let (m3, k) = match block_open(s, b2, st.delims) {
        Some(o) => o,
        None => return Step::Fail(b2),
    };
    match keyword(s, k, "endfor") {
        Some(e) => match tag_end(s, e, st.delims.block_end) {
            Some((m4, end)) => Step::Done(
                Node::Loop(Loop { ws1: Ws::new(m1, m2), var: copy_range(s, a, v), iter: iter.0, body: nodes, ws2: Ws::new(m3, m4) }),
                end,
            ),
            None => Step::Fail(k),
        },
        None => Step::Fail(k),
    }
}

} // verus!

verus! {

/// No tag starts anywhere in `s`.
pub open spec fn has_no_tag(s: Seq<char>, d: Delims) -> bool {
    forall|i: int| 0 <= i < s.len() ==> !tag_start_at(s, i, d)
}

/// `nodes` is the literal text `src` alone: one literal node that holds all
/// of it, or no node where it is empty.
pub open spec fn is_plain_text(nodes: Seq<Node>, src: Seq<char>) -> bool {
    if src.len() > 0 {
        nodes.len() == 1 && (nodes[0] matches Node::Lit(l) && l.lws@ + l.val@ + l.rws@ == src)
    } else {
        nodes.len() == 0
    }
}

/// Parses template source with the given syntax into a block of nodes. The
/// whole input must be consumed; a failure reports where it was found.
///
/// Source made of literal runs, plain variable tags and one-branch
/// conditionals over them (`simple_nodes`) parses, to exactly the nodes that
/// `node_matches` describes. Where such a run stops at an expression tag
/// that is never closed, the error lies at the start of its expression;
/// where it stops at a block tag start with no keyword, the error lies there.
pub fn parse(src: &str, syntax: &Syntax) -> (r: Result<Block, ParseError>)
    requires
        syntax.is_valid(),
        src@.len() < usize::MAX,
    ensures
        r matches Ok(b) ==> b.ws.flush is None && b.ws.prepare is None,
        r matches Err(e) ==> e.is_in(src@),
        has_no_tag(src@, delims_of(*syntax)) ==> (r matches Ok(b) && is_plain_text(b.nodes@, src@)),
        simple_nodes(src@, 0, delims_of(*syntax)) matches Some(sns) ==> (r matches Ok(b)
            && b.nodes@.len() == sns.len() && forall|i: int|
            0 <= i < sns.len() ==> node_matches(#[trigger] b.nodes@[i], sns[i], src@)),
        dangling_block_at(src@, simple_run(src@, 0, delims_of(*syntax)).1, delims_of(*syntax)) ==> (r matches Err(e)
            && e.is_at(src@, simple_run(src@, 0, delims_of(*syntax)).1)),
        unclosed_expr_at(src@, simple_run(src@, 0, delims_of(*syntax)).1, delims_of(*syntax)) ==> (r matches Err(e)
            && e.is_at(src@, skip_ws_end(src@, marker_end(src@, simple_run(src@, 0, delims_of(*syntax)).1 + 2)))),
{
    let chars = chars_of(src);
    let mut st = State::new(syntax);
    proof {
        let stop = simple_run(src@, 0, delims_of(*syntax)).1;
        if unclosed_expr_at(src@, stop, delims_of(*syntax)) {
            crate::scan::lemma_skip_ws_end_bounds(src@, marker_end(src@, stop + 2));
        }
    }
    match parse_nodes(chars.as_slice(), 0, &mut st) {
        Ok((nodes, end)) => {
            if end == chars.len() {
                proof {
                    if src@.len() > 0 {
                        assert(src@.subrange(0, src@.len() as int) =~= src@);
                    }
                }
                Ok(Block { nodes, ws: Ws::new(None, None) })
            } else {
                let err = ParseError::at(chars.as_slice(), end);
                assert(err.is_at(src@, end as int));
                assert(err.is_in(src@));
                Err(err)
            }
        },
        Err(e) => {
            let err = ParseError::at(chars.as_slice(), e);
            assert(err.is_at(src@, e as int));
            assert(err.is_in(src@));
            Err(err)
        },
    }
}

} // verus!
