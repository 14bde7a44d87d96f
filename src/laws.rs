use vstd::prelude::*;
use crate::ast::{ExprV, LitV};
use crate::literal::{int_text, is_digit, lemma_int_text_round_trip, lemma_nat_text, nat_text};
use crate::serialize::{escape_char, escape_text, expr_text, join_exprs, join_pairs, literal_text};
use crate::parser::{parse_expr, parse_items, parse_pairs, parse_tokens};
use crate::token::{Delim, TokenV};

verus! {

broadcast use vstd::seq::group_seq_axioms;

/// The tokens of the canonical source text of an expression, in order.
pub open spec fn tokens_of(e: ExprV) -> Seq<TokenV>
    decreases e,
{
    match e {
        ExprV::Literal(l) => match l {
            LitV::String(s) => seq![TokenV::Str(s)],
            LitV::Number(t) => seq![TokenV::Float(t)],
            LitV::Integer(v) => seq![TokenV::Int(int_text(v as int))],
            LitV::Boolean(b) => seq![TokenV::Bool(b)],
            LitV::Keyword(k) => seq![TokenV::Colon, TokenV::Ident(k)],
        },
        ExprV::Symbol(s) => seq![TokenV::Ident(s)],
        ExprV::List(items) => seq![TokenV::Open(Delim::Paren)] + items_tokens(items) + seq![
            TokenV::Close(Delim::Paren),
        ],
        ExprV::Array(items) => seq![TokenV::Open(Delim::Bracket)] + items_tokens(items) + seq![
            TokenV::Close(Delim::Bracket),
        ],
        ExprV::Table(pairs) => seq![TokenV::At, TokenV::Open(Delim::Brace)] + pairs_tokens(pairs)
            + seq![TokenV::Close(Delim::Brace)],
    }
}

pub open spec fn items_tokens(s: Seq<ExprV>) -> Seq<TokenV>
    decreases s,
{
    if s.len() == 0 {
        Seq::empty()
    } else {
        tokens_of(s[0]) + items_tokens(s.drop_first())
    }
}

pub open spec fn pairs_tokens(s: Seq<(ExprV, ExprV)>) -> Seq<TokenV>
    decreases s,
{
    if s.len() == 0 {
        Seq::empty()
    } else {
        tokens_of(s[0].0) + tokens_of(s[0].1) + pairs_tokens(s.drop_first())
    }
}

proof fn lemma_slice(t: Seq<TokenV>, pos: int, a: Seq<TokenV>, b: Seq<TokenV>)
    requires
        0 <= pos,
        pos + a.len() + b.len() <= t.len(),
        t.subrange(pos, pos + a.len() + b.len()) == a + b,
    ensures
        t.subrange(pos, pos + a.len()) == a,
        t.subrange(pos + a.len(), pos + a.len() + b.len()) == b,
{
    let ab = a + b;
    assert forall|i: int| 0 <= i < a.len() implies t.subrange(pos, pos + a.len())[i] == a[i] by {
        assert(t[pos + i] == ab[i]);
    }
    assert forall|i: int| 0 <= i < b.len() implies t.subrange(
        pos + a.len(),
        pos + a.len() + b.len(),
    )[i] == b[i] by {
        assert(t[pos + a.len() + i] == ab[a.len() + i]);
    }
    assert(t.subrange(pos, pos + a.len()) =~= a);
    assert(t.subrange(pos + a.len(), pos + a.len() + b.len()) =~= b);
}

proof fn lemma_expr_tokens(e: ExprV, t: Seq<TokenV>, pos: int)
    requires
        0 <= pos,
        pos + tokens_of(e).len() <= t.len(),
        t.subrange(pos, pos + tokens_of(e).len()) == tokens_of(e),
    ensures
        tokens_of(e).len() >= 1,
        !(tokens_of(e)[0] is Close),
        parse_expr(t, pos) == Ok::<_, crate::parser::ParseError>((e, pos + tokens_of(e).len())),
    decreases e, 0int,
{
    let u = tokens_of(e);
    assert(t[pos] == u[0]);
    match e {
        ExprV::Literal(l) => {
            if let LitV::Integer(v) = l {
                lemma_int_text_round_trip(v);
            }
            if let LitV::Keyword(k) = l {
                assert(t[pos + 1] == u[1]);
            }
        },
        ExprV::Symbol(_) => {},
        ExprV::List(items) => {
            let body = items_tokens(items);
            let open = seq![TokenV::Open(Delim::Paren)];
            let close = seq![TokenV::Close(Delim::Paren)];
            assert(u == open + (body + close));
            lemma_slice(t, pos, open, body + close);
            lemma_slice(t, pos + 1, body, close);
            assert(t[pos + 1 + body.len()] == (body + close)[body.len() as int]);
            lemma_items_tokens(items, t, pos + 1, Delim::Paren);
        },
        ExprV::Array(items) => {
            let body = items_tokens(items);
            let open = seq![TokenV::Open(Delim::Bracket)];
            let close = seq![TokenV::Close(Delim::Bracket)];
            assert(u == open + (body + close));
            lemma_slice(t, pos, open, body + close);
            lemma_slice(t, pos + 1, body, close);
            assert(t[pos + 1 + body.len()] == (body + close)[body.len() as int]);
            lemma_items_tokens(items, t, pos + 1, Delim::Bracket);
        },
        ExprV::Table(pairs) => {
            assert(t[pos + 1] == u[1]);
            let body = pairs_tokens(pairs);
            let open = seq![TokenV::At, TokenV::Open(Delim::Brace)];
            let close = seq![TokenV::Close(Delim::Brace)];
            assert(u == open + (body + close));
            lemma_slice(t, pos, open, body + close);
            lemma_slice(t, pos + 2, body, close);
            assert(t[pos + 2 + body.len()] == (body + close)[body.len() as int]);
            lemma_pairs_tokens(pairs, t, pos + 2);
        },
    }
}

proof fn lemma_items_tokens(s: Seq<ExprV>, t: Seq<TokenV>, pos: int, d: Delim)
    requires
        0 <= pos,
        pos + items_tokens(s).len() < t.len(),
        t.subrange(pos, pos + items_tokens(s).len()) == items_tokens(s),
        t[pos + items_tokens(s).len()] == TokenV::Close(d),
    ensures
        parse_items(t, pos, d) == Ok::<_, crate::parser::ParseError>(
            (s, pos + items_tokens(s).len() + 1),
        ),
    decreases s, 1int,
{
    if s.len() > 0 {
        let first = tokens_of(s[0]);
        let rest = items_tokens(s.drop_first());
        let all = items_tokens(s);
        assert(all == first + rest);
        assert(t.subrange(pos, pos + first.len()) =~= first) by {
            assert forall|i: int| 0 <= i < first.len() implies t.subrange(
                pos,
                pos + first.len(),
            )[i] == first[i] by {
                assert(t[pos + i] == all[i]);
            }
        }
        lemma_expr_tokens(s[0], t, pos);
        let next = pos + first.len();
        assert(t.subrange(next, next + rest.len()) =~= rest) by {
            assert forall|i: int| 0 <= i < rest.len() implies t.subrange(
                next,
                next + rest.len(),
            )[i] == rest[i] by {
                assert(t[next + i] == all[first.len() + i]);
            }
        }
        assert(t[pos] == all[0]);
        lemma_items_tokens(s.drop_first(), t, next, d);
        assert(seq![s[0]] + s.drop_first() =~= s);
    } else {
        assert(s =~= Seq::<ExprV>::empty());
    }
}

proof fn lemma_pairs_tokens(s: Seq<(ExprV, ExprV)>, t: Seq<TokenV>, pos: int)
    requires
        0 <= pos,
        pos + pairs_tokens(s).len() < t.len(),
        t.subrange(pos, pos + pairs_tokens(s).len()) == pairs_tokens(s),
        t[pos + pairs_tokens(s).len()] == TokenV::Close(Delim::Brace),
    ensures
        parse_pairs(t, pos) == Ok::<_, crate::parser::ParseError>(
            (s, pos + pairs_tokens(s).len() + 1),
        ),
    decreases s, 1int,
{
    if s.len() > 0 {
        let k = tokens_of(s[0].0);
        let v = tokens_of(s[0].1);
        let rest = pairs_tokens(s.drop_first());
        let all = pairs_tokens(s);
        assert(all == k + v + rest);
        assert(t.subrange(pos, pos + k.len()) =~= k) by {
            assert forall|i: int| 0 <= i < k.len() implies t.subrange(pos, pos + k.len())[i]
                == k[i] by {
                assert(t[pos + i] == all[i]);
            }
        }
        lemma_expr_tokens(s[0].0, t, pos);
        let mid = pos + k.len();
        assert(t.subrange(mid, mid + v.len()) =~= v) by {
            assert forall|i: int| 0 <= i < v.len() implies t.subrange(mid, mid + v.len())[i]
                == v[i] by {
                assert(t[mid + i] == all[k.len() + i]);
            }
        }
        lemma_expr_tokens(s[0].1, t, mid);
        let next = mid + v.len();
        assert(t.subrange(next, next + rest.len()) =~= rest) by {
            assert forall|i: int| 0 <= i < rest.len() implies t.subrange(
                next,
                next + rest.len(),
            )[i] == rest[i] by {
                assert(t[next + i] == all[k.len() + v.len() + i]);
            }
        }
        assert(t[pos] == all[0]);
        assert(t[mid] == all[k.len() as int]);
        lemma_pairs_tokens(s.drop_first(), t, next);
        assert(seq![s[0]] + s.drop_first() =~= s);
    } else {
        assert(s =~= Seq::<(ExprV, ExprV)>::empty());
    }
}

pub open spec fn open_char(d: Delim) -> char {
    match d {
        Delim::Paren => '(',
        Delim::Bracket => '[',
        Delim::Brace => '{',
    }
}

pub open spec fn close_char(d: Delim) -> char {
    match d {
        Delim::Paren => ')',
        Delim::Bracket => ']',
        Delim::Brace => '}',
    }
}

/// How one token is written.
pub open spec fn token_text(t: TokenV) -> Seq<char> {
    match t {
        TokenV::Open(d) => seq![open_char(d)],
        TokenV::Close(d) => seq![close_char(d)],
        TokenV::At => seq!['@'],
        TokenV::Colon => seq![':'],
        TokenV::Str(s) => literal_text(LitV::String(s)),
        TokenV::Int(x) => x,
        TokenV::Float(x) => x,
        TokenV::Bool(b) => literal_text(LitV::Boolean(b)),
        TokenV::Ident(s) => s,
        TokenV::Punct(c) => seq![c],
    }
}

/// What stands between two adjacent tokens: nothing after an opening
/// delimiter, `@` or `:`, nothing before a closing delimiter, else one space.
pub open spec fn gap(a: TokenV, b: TokenV) -> Seq<char> {
    if a is Open || a is At || a is Colon || b is Close {
        Seq::empty()
    } else {
        seq![' ']
    }
}

/// A token sequence written out as text.
pub open spec fn render(t: Seq<TokenV>) -> Seq<char>
    decreases t.len(),
{
    if t.len() == 0 {
        Seq::empty()
    } else if t.len() == 1 {
        token_text(t[0])
    } else {
        token_text(t[0]) + gap(t[0], t[1]) + render(t.drop_first())
    }
}

proof fn lemma_render_concat(a: Seq<TokenV>, b: Seq<TokenV>)
    requires
        a.len() > 0,
        b.len() > 0,
    ensures
        render(a + b) == render(a) + gap(a.last(), b[0]) + render(b),
    decreases a.len(),
{
    let ab = a + b;
    assert(ab[0] == a[0]);
    assert(ab[1] == if a.len() == 1 { b[0] } else { a[1] });
    if a.len() == 1 {
        assert(ab.drop_first() =~= b);
    } else {
        assert(ab.drop_first() =~= a.drop_first() + b);
        lemma_render_concat(a.drop_first(), b);
        assert(a.drop_first().last() == a.last());
    }
}

/// The first token of an expression never closes, its last never glues.
proof fn lemma_tokens_ends(e: ExprV)
    ensures
        tokens_of(e).len() > 0,
        !(tokens_of(e)[0] is Close),
        !(tokens_of(e).last() is Open || tokens_of(e).last() is At || tokens_of(e).last() is Colon),
{
}

proof fn lemma_items_tokens_snoc(s: Seq<ExprV>)
    requires
        s.len() > 0,
    ensures
        items_tokens(s) == items_tokens(s.drop_last()) + tokens_of(s.last()),
    decreases s.len(),
{
    if s.len() == 1 {
        assert(s.drop_first() =~= Seq::<ExprV>::empty());
        assert(s.drop_last() =~= Seq::<ExprV>::empty());
        assert(items_tokens(s) =~= items_tokens(s.drop_last()) + tokens_of(s.last()));
    } else {
        lemma_items_tokens_snoc(s.drop_first());
        assert(s.drop_first().drop_last() =~= s.drop_last().drop_first());
        assert(s.drop_last()[0] == s[0]);
        assert(items_tokens(s) =~= items_tokens(s.drop_last()) + tokens_of(s.last()));
    }
}

proof fn lemma_pairs_tokens_snoc(s: Seq<(ExprV, ExprV)>)
    requires
        s.len() > 0,
    ensures
        pairs_tokens(s) == pairs_tokens(s.drop_last()) + tokens_of(s.last().0) + tokens_of(
            s.last().1,
        ),
    decreases s.len(),
{
    if s.len() == 1 {
        assert(s.drop_first() =~= Seq::<(ExprV, ExprV)>::empty());
        assert(s.drop_last() =~= Seq::<(ExprV, ExprV)>::empty());
        assert(pairs_tokens(s) =~= pairs_tokens(s.drop_last()) + tokens_of(s.last().0)
            + tokens_of(s.last().1));
    } else {
        lemma_pairs_tokens_snoc(s.drop_first());
        assert(s.drop_first().drop_last() =~= s.drop_last().drop_first());
        assert(s.drop_last()[0] == s[0]);
        assert(pairs_tokens(s) =~= pairs_tokens(s.drop_last()) + tokens_of(s.last().0)
            + tokens_of(s.last().1));
    }
}

/// `o`, then a body, then `c`, where `o` glues to what follows and `c` to
/// what precedes.
proof fn lemma_render_wrapped(o: Seq<TokenV>, body: Seq<TokenV>, c: TokenV)
    requires
        o.len() > 0,
        o.last() is Open,
        c is Close,
    ensures
        render(o + body + seq![c]) == render(o) + render(body) + token_text(c),
{
    let cs = seq![c];
    assert(render(cs) == token_text(c));
    if body.len() == 0 {
        assert(o + body =~= o);
        lemma_render_concat(o, cs);
        assert(render(body) =~= Seq::<char>::empty());
    } else {
        lemma_render_concat(o, body);
        lemma_render_concat(o + body, cs);
        assert((o + body).last() == body.last());
    }
    assert(render(o) + Seq::<char>::empty() + render(body) + Seq::<char>::empty() + token_text(c)
        =~= render(o) + render(body) + token_text(c));
}

proof fn lemma_text_is_render(e: ExprV)
    ensures
        expr_text(e) == render(tokens_of(e)),
    decreases e, 0int,
{
    let t = tokens_of(e);
    match e {
        ExprV::Literal(l) => {
            if let LitV::Keyword(k) = l {
                assert(t.drop_first() =~= seq![TokenV::Ident(k)]);
                assert(render(t.drop_first()) == k);
                assert(render(t) == seq![':'] + Seq::<char>::empty() + k);
                assert(render(t) =~= expr_text(e));
            }
        },
        ExprV::Symbol(_) => {},
        ExprV::List(items) => {
            lemma_text_items(items);
            let o = seq![TokenV::Open(Delim::Paren)];
            lemma_render_wrapped(o, items_tokens(items), TokenV::Close(Delim::Paren));
        },
        ExprV::Array(items) => {
            lemma_text_items(items);
            let o = seq![TokenV::Open(Delim::Bracket)];
            lemma_render_wrapped(o, items_tokens(items), TokenV::Close(Delim::Bracket));
        },
        ExprV::Table(pairs) => {
            lemma_text_pairs(pairs);
            let o = seq![TokenV::At, TokenV::Open(Delim::Brace)];
            assert(o.drop_first() =~= seq![TokenV::Open(Delim::Brace)]);
            assert(render(o.drop_first()) == seq!['{']);
            assert(render(o) == seq!['@'] + Seq::<char>::empty() + seq!['{']);
            assert(render(o) =~= seq!['@', '{']);
            lemma_render_wrapped(o, pairs_tokens(pairs), TokenV::Close(Delim::Brace));
        },
    }
}

proof fn lemma_text_items(s: Seq<ExprV>)
    ensures
        join_exprs(s) == render(items_tokens(s)),
    decreases s, 1int,
{
    if s.len() == 1 {
        lemma_items_tokens_snoc(s);
        assert(items_tokens(s.drop_last()) =~= Seq::<TokenV>::empty());
        assert(items_tokens(s) =~= tokens_of(s.last()));
        lemma_text_is_render(s[0]);
    } else if s.len() > 1 {
        let init = s.drop_last();
        lemma_items_tokens_snoc(s);
        lemma_items_tokens_snoc(init);
        lemma_tokens_ends(init.last());
        lemma_tokens_ends(s.last());
        lemma_text_items(init);
        lemma_text_is_render(s.last());
        lemma_render_concat(items_tokens(init), tokens_of(s.last()));
    } else {
        assert(render(items_tokens(s)) =~= join_exprs(s));
    }
}

proof fn lemma_text_pairs(s: Seq<(ExprV, ExprV)>)
    ensures
        join_pairs(s) == render(pairs_tokens(s)),
    decreases s, 1int,
{
    if s.len() >= 1 {
        let kv = s.last();
        let k = tokens_of(kv.0);
        let v = tokens_of(kv.1);
        lemma_pairs_tokens_snoc(s);
        lemma_tokens_ends(kv.0);
        lemma_tokens_ends(kv.1);
        lemma_text_is_render(kv.0);
        lemma_text_is_render(kv.1);
        lemma_render_concat(k, v);
        if s.len() == 1 {
            assert(pairs_tokens(s.drop_last()) =~= Seq::<TokenV>::empty());
            assert(pairs_tokens(s) =~= k + v);
            assert(s[0] == kv);
        } else {
            let init = s.drop_last();
            let it = pairs_tokens(init);
            lemma_pairs_tokens_snoc(init);
            lemma_tokens_ends(init.last().1);
            lemma_text_pairs(init);
            assert(pairs_tokens(s) =~= it + (k + v));
            lemma_render_concat(it, k + v);
            assert((k + v)[0] == k[0]);
            assert(it.last() == tokens_of(init.last().1).last());
        }
    } else {
        assert(render(pairs_tokens(s)) =~= join_pairs(s));
    }
}

/// Round trip: the canonical text of an expression is the rendering of a
/// token sequence, and parsing that token sequence gives back the same
/// expression.
pub proof fn lemma_round_trip(e: ExprV)
    ensures
        expr_text(e) == render(tokens_of(e)),
        parse_tokens(tokens_of(e)) == Ok::<_, crate::parser::ParseError>(e),
{
    lemma_text_is_render(e);
    let t = tokens_of(e);
    assert(t.subrange(0, t.len() as int) =~= t);
    lemma_expr_tokens(e, t, 0);
}

/// Where a left-to-right reader of source text stands: outside strings with
/// a stack of expected closing delimiters, inside a string, just after a
/// backslash inside a string, or past a delimiter that closes nothing open.
pub enum Scan {
    Code(Seq<char>),
    InString(Seq<char>),
    Escape(Seq<char>),
    Broken,
}

pub open spec fn closer_of(c: char) -> char {
    if c == '(' {
        ')'
    } else if c == '[' {
        ']'
    } else {
        '}'
    }
}

pub open spec fn scan_step(st: Scan, c: char) -> Scan {
    match st {
        Scan::Code(stack) => if c == '(' || c == '[' || c == '{' {
            Scan::Code(stack.push(closer_of(c)))
        } else if c == ')' || c == ']' || c == '}' {
            if stack.len() > 0 && stack.last() == c {
                Scan::Code(stack.drop_last())
            } else {
                Scan::Broken
            }
        } else if c == '"' {
            Scan::InString(stack)
        } else {
            Scan::Code(stack)
        },
        Scan::InString(stack) => if c == '\\' {
            Scan::Escape(stack)
        } else if c == '"' {
            Scan::Code(stack)
        } else {
            Scan::InString(stack)
        },
        Scan::Escape(stack) => Scan::InString(stack),
        Scan::Broken => Scan::Broken,
    }
}

pub open spec fn scan(st: Scan, s: Seq<char>) -> Scan
    decreases s.len(),
{
    if s.len() == 0 {
        st
    } else {
        scan(scan_step(st, s[0]), s.drop_first())
    }
}

/// Every delimiter outside string literals is closed, in order, by its own
/// kind, and every string literal is terminated.
pub open spec fn balanced(s: Seq<char>) -> bool {
    scan(Scan::Code(Seq::empty()), s) == Scan::Code(Seq::<char>::empty())
}

pub open spec fn is_special(c: char) -> bool {
    c == '(' || c == ')' || c == '[' || c == ']' || c == '{' || c == '}' || c == '"' || c
        == '\\'
}

/// Text with no delimiter, quote or backslash.
pub open spec fn plain(s: Seq<char>) -> bool {
    forall|i: int| 0 <= i < s.len() ==> !is_special(#[trigger] s[i])
}

pub open spec fn literal_ok(l: LitV) -> bool {
    match l {
        LitV::String(s) => !s.contains('\\'),
        LitV::Number(t) => plain(t),
        LitV::Keyword(k) => plain(k),
        _ => true,
    }
}

/// String literals hold no backslash, and symbols, keywords and numbers
/// hold no delimiter, quote or backslash.
pub open spec fn text_safe(e: ExprV) -> bool
    decreases e,
{
    match e {
        ExprV::Literal(l) => literal_ok(l),
        ExprV::Symbol(s) => plain(s),
        ExprV::List(items) => items_safe(items),
        ExprV::Array(items) => items_safe(items),
        ExprV::Table(pairs) => pairs_safe(pairs),
    }
}

pub open spec fn items_safe(s: Seq<ExprV>) -> bool
    decreases s,
{
    s.len() > 0 ==> items_safe(s.drop_last()) && text_safe(s.last())
}

pub open spec fn pairs_safe(s: Seq<(ExprV, ExprV)>) -> bool
    decreases s,
{
    s.len() > 0 ==> pairs_safe(s.drop_last()) && text_safe(s.last().0) && text_safe(s.last().1)
}

proof fn lemma_scan_concat(st: Scan, a: Seq<char>, b: Seq<char>)
    ensures
        scan(st, a + b) == scan(scan(st, a), b),
    decreases a.len(),
{
    if a.len() == 0 {
        assert(a + b =~= b);
    } else {
        assert((a + b).drop_first() =~= a.drop_first() + b);
        assert((a + b)[0] == a[0]);
        lemma_scan_concat(scan_step(st, a[0]), a.drop_first(), b);
    }
}

proof fn lemma_scan_plain(stack: Seq<char>, s: Seq<char>)
    requires
        plain(s),
    ensures
        scan(Scan::Code(stack), s) == Scan::Code(stack),
    decreases s.len(),
{
    if s.len() > 0 {
        assert(!is_special(s[0]));
        assert(plain(s.drop_first())) by {
            assert forall|i: int| 0 <= i < s.drop_first().len() implies !is_special(
                #[trigger] s.drop_first()[i],
            ) by {
                assert(s.drop_first()[i] == s[i + 1]);
            }
        }
        lemma_scan_plain(stack, s.drop_first());
    }
}

proof fn lemma_scan_escaped(stack: Seq<char>, s: Seq<char>)
    requires
        !s.contains('\\'),
    ensures
        scan(Scan::InString(stack), escape_text(s)) == Scan::InString(stack),
    decreases s.len(),
{
    if s.len() > 0 {
        let p = s.drop_last();
        assert(!p.contains('\\')) by {
            if p.contains('\\') {
                let i = choose|i: int| 0 <= i < p.len() && p[i] == '\\';
                assert(s[i] == '\\');
            }
        }
        lemma_scan_escaped(stack, p);
        let c = s.last();
        assert(s[s.len() - 1] == c);
        lemma_scan_concat(Scan::InString(stack), escape_text(p), escape_char(c));
        let ec = escape_char(c);
        assert(c != '\\');
        assert(escape_text(s) == escape_text(p) + ec);
        if c == '"' {
            assert(ec =~= seq!['\\'] + seq!['"']);
            lemma_scan_concat(Scan::InString(stack), seq!['\\'], seq!['"']);
            lemma_scan_one(Scan::InString(stack), '\\');
            lemma_scan_one(Scan::Escape(stack), '"');
        } else {
            lemma_scan_one(Scan::InString(stack), c);
        }
    }
}

proof fn lemma_scan_one(st: Scan, c: char)
    ensures
        scan(st, seq![c]) == scan_step(st, c),
{
    assert(seq![c].drop_first() =~= Seq::<char>::empty());
    assert(scan(scan_step(st, c), Seq::<char>::empty()) == scan_step(st, c));
}

proof fn lemma_scan_char(stack: Seq<char>, c: char)
    ensures
        scan(Scan::Code(stack), seq![c]) == scan_step(Scan::Code(stack), c),
{
    lemma_scan_one(Scan::Code(stack), c);
}

proof fn lemma_int_text_plain(v: int)
    ensures
        plain(int_text(v)),
{
    let n = if v < 0 { (-v) as nat } else { v as nat };
    lemma_nat_text(n);
    let t = int_text(v);
    assert forall|i: int| 0 <= i < t.len() implies !is_special(#[trigger] t[i]) by {
        if v < 0 && i > 0 {
            assert(t[i] == nat_text(n)[i - 1]);
            assert(is_digit(nat_text(n)[i - 1]));
        } else if v >= 0 {
            assert(is_digit(nat_text(n)[i]));
        }
    }
}

proof fn lemma_scan_literal(stack: Seq<char>, l: LitV)
    requires
        literal_ok(l),
    ensures
        scan(Scan::Code(stack), literal_text(l)) == Scan::Code(stack),
{
    let t = literal_text(l);
    match l {
        LitV::String(s) => {
            let q = seq!['"'];
            lemma_scan_concat(Scan::Code(stack), q + escape_text(s), q);
            lemma_scan_concat(Scan::Code(stack), q, escape_text(s));
            lemma_scan_one(Scan::Code(stack), '"');
            lemma_scan_escaped(stack, s);
            lemma_scan_one(Scan::InString(stack), '"');
        },
        LitV::Number(n) => {
            lemma_scan_plain(stack, n);
        },
        LitV::Integer(v) => {
            lemma_int_text_plain(v as int);
            lemma_scan_plain(stack, t);
        },
        LitV::Boolean(b) => {
            assert(plain(t));
            lemma_scan_plain(stack, t);
        },
        LitV::Keyword(k) => {
            assert(plain(t)) by {
                assert forall|i: int| 0 <= i < t.len() implies !is_special(#[trigger] t[i]) by {
                    if i > 0 {
                        assert(t[i] == k[i - 1]);
                    }
                }
            }
            lemma_scan_plain(stack, t);
        },
    }
}

/// `open`, a body that leaves any stack unchanged, then the matching closer.
proof fn lemma_scan_wrapped(stack: Seq<char>, open: Seq<char>, body: Seq<char>, c: char)
    requires
        open.len() > 0,
        open.last() == '(' || open.last() == '[' || open.last() == '{',
        plain(open.drop_last()),
        c == closer_of(open.last()),
        scan(Scan::Code(stack.push(c)), body) == Scan::Code(stack.push(c)),
    ensures
        scan(Scan::Code(stack), open + body + seq![c]) == Scan::Code(stack),
{
    let pre = open.drop_last();
    assert(open =~= pre + seq![open.last()]);
    lemma_scan_plain(stack, pre);
    lemma_scan_concat(Scan::Code(stack), pre, seq![open.last()]);
    lemma_scan_char(stack, open.last());
    lemma_scan_concat(Scan::Code(stack), open, body);
    lemma_scan_concat(Scan::Code(stack), open + body, seq![c]);
    lemma_scan_char(stack.push(c), c);
    assert(stack.push(c).drop_last() =~= stack);
}

proof fn lemma_scan_expr(stack: Seq<char>, e: ExprV)
    requires
        text_safe(e),
    ensures
        scan(Scan::Code(stack), expr_text(e)) == Scan::Code(stack),
    decreases e, 0int,
{
    match e {
        ExprV::Literal(l) => lemma_scan_literal(stack, l),
        ExprV::Symbol(s) => lemma_scan_plain(stack, s),
        ExprV::List(items) => {
            lemma_scan_items(stack.push(')'), items);
            assert(seq!['('].drop_last() =~= Seq::<char>::empty());
            lemma_scan_wrapped(stack, seq!['('], join_exprs(items), ')');
        },
        ExprV::Array(items) => {
            lemma_scan_items(stack.push(']'), items);
            assert(seq!['['].drop_last() =~= Seq::<char>::empty());
            lemma_scan_wrapped(stack, seq!['['], join_exprs(items), ']');
        },
        ExprV::Table(pairs) => {
            lemma_scan_pairs(stack.push('}'), pairs);
            let open = seq!['@', '{'];
            assert(open.drop_last() =~= seq!['@']);
            assert(plain(seq!['@']));
            lemma_scan_wrapped(stack, open, join_pairs(pairs), '}');
        },
    }
}

proof fn lemma_scan_items(stack: Seq<char>, s: Seq<ExprV>)
    requires
        items_safe(s),
    ensures
        scan(Scan::Code(stack), join_exprs(s)) == Scan::Code(stack),
    decreases s, 1int,
{
    if s.len() == 1 {
        assert(s.drop_last().len() == 0);
        lemma_scan_expr(stack, s[0]);
    } else if s.len() > 1 {
        let j = join_exprs(s.drop_last());
        lemma_scan_items(stack, s.drop_last());
        lemma_scan_expr(stack, s.last());
        lemma_scan_concat(Scan::Code(stack), j, seq![' ']);
        lemma_scan_char(stack, ' ');
        lemma_scan_concat(Scan::Code(stack), j + seq![' '], expr_text(s.last()));
    }
}

proof fn lemma_scan_pairs(stack: Seq<char>, s: Seq<(ExprV, ExprV)>)
    requires
        pairs_safe(s),
    ensures
        scan(Scan::Code(stack), join_pairs(s)) == Scan::Code(stack),
    decreases s, 1int,
{
    if s.len() >= 1 {
        let kv = s.last();
        lemma_scan_expr(stack, kv.0);
        lemma_scan_expr(stack, kv.1);
        lemma_scan_char(stack, ' ');
        let k = expr_text(kv.0);
        let v = expr_text(kv.1);
        if s.len() == 1 {
            assert(s[0] == kv);
            lemma_scan_concat(Scan::Code(stack), k, seq![' ']);
            lemma_scan_concat(Scan::Code(stack), k + seq![' '], v);
        } else {
            let j = join_pairs(s.drop_last());
            lemma_scan_pairs(stack, s.drop_last());
            lemma_scan_concat(Scan::Code(stack), j, seq![' ']);
            lemma_scan_concat(Scan::Code(stack), j + seq![' '], k);
            lemma_scan_concat(Scan::Code(stack), j + seq![' '] + k, seq![' ']);
            lemma_scan_concat(Scan::Code(stack), j + seq![' '] + k + seq![' '], v);
        }
    }
}

/// The canonical text of an expression has balanced delimiters and
/// terminated strings, provided its strings hold no backslash and its
/// symbols, keywords and numbers hold no delimiter, quote or backslash.
pub proof fn lemma_balanced(e: ExprV)
    requires
        text_safe(e),
    ensures
        balanced(expr_text(e)),
{
    lemma_scan_expr(Seq::empty(), e);
}

} // verus!
