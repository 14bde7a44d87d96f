use vstd::prelude::*;
use crate::ast::{ExprV, JanetExpr, JanetLiteral, LitV, lemma_exprs_view, lemma_pairs_view, exprs_view, pairs_view};
use crate::literal::{int_text, integer_text};

verus! {

broadcast use {vstd::std_specs::vec::group_vec_axioms, vstd::seq::group_seq_axioms};

/// One character of string contents as written inside quotes: only `"` is escaped.
pub open spec fn escape_char(c: char) -> Seq<char> {
    if c == '"' {
        seq!['\\', '"']
    } else {
        seq![c]
    }
}

/// String contents as written inside quotes.
pub open spec fn escape_text(s: Seq<char>) -> Seq<char>
    decreases s.len(),
{
    if s.len() == 0 {
        Seq::empty()
    } else {
        escape_text(s.drop_last()) + escape_char(s.last())
    }
}

/// The source text of a literal.
pub open spec fn literal_text(l: LitV) -> Seq<char> {
    match l {
        LitV::String(s) => seq!['"'] + escape_text(s) + seq!['"'],
        LitV::Number(t) => t,
        LitV::Integer(v) => int_text(v as int),
        LitV::Boolean(b) => if b {
            seq!['t', 'r', 'u', 'e']
        } else {
            seq!['f', 'a', 'l', 's', 'e']
        },
        LitV::Keyword(k) => seq![':'] + k,
    }
}

/// The texts of expressions, separated by single spaces.
pub open spec fn join_exprs(s: Seq<ExprV>) -> Seq<char>
    decreases s,
{
    if s.len() == 0 {
        Seq::empty()
    } else if s.len() == 1 {
        expr_text(s[0])
    } else {
        join_exprs(s.drop_last()) + seq![' '] + expr_text(s.last())
    }
}

/// The texts of key/value pairs, `key value`, separated by single spaces.
pub open spec fn join_pairs(s: Seq<(ExprV, ExprV)>) -> Seq<char>
    decreases s,
{
    if s.len() == 0 {
        Seq::empty()
    } else if s.len() == 1 {
        expr_text(s[0].0) + seq![' '] + expr_text(s[0].1)
    } else {
        join_pairs(s.drop_last()) + seq![' '] + expr_text(s.last().0) + seq![' '] + expr_text(
            s.last().1,
        )
    }
}

/// The canonical source text of an expression.
pub open spec fn expr_text(e: ExprV) -> Seq<char>
    decreases e,
{
    match e {
        ExprV::Literal(l) => literal_text(l),
        ExprV::Symbol(s) => s,
        ExprV::List(items) => seq!['('] + join_exprs(items) + seq![')'],
        ExprV::Array(items) => seq!['['] + join_exprs(items) + seq![']'],
        ExprV::Table(pairs) => seq!['@', '{'] + join_pairs(pairs) + seq!['}'],
    }
}

fn push_escaped(out: &mut String, s: &str)
    ensures
        final(out)@ == old(out)@ + escape_text(s@),
{
    let ghost start = out@;
    let len = s.unicode_len();
    let mut i: usize = 0;
    assert(s@.take(0) =~= Seq::<char>::empty());
    assert(start + escape_text(Seq::<char>::empty()) =~= start);
    while i < len
        invariant
            i <= len,
            len == s@.len(),
            out@ == start + escape_text(s@.take(i as int)),
        decreases len - i,
    {
        let c = s.get_char(i);
        assert(s@.take(i + 1).drop_last() =~= s@.take(i as int));
        if c == '"' {
            proof {
                reveal_strlit("\\\"");
            }
            out.append("\\\"");
        } else {
            let one = s.substring_char(i, i + 1);
            assert(one@ =~= seq![c]);
            out.append(one);
        }
        assert(out@ =~= start + escape_text(s@.take(i + 1)));
        i = i + 1;
    }
    assert(s@.take(len as int) =~= s@);
}

impl JanetLiteral {
    /// Writes the literal as source text.
    pub fn to_janet_code(&self) -> (r: String)
        ensures
            r@ == literal_text(self@),
    {
        match self {
            JanetLiteral::String(s) => {
                proof {
                    reveal_strlit("\"");
                }
                let mut out = String::from_str("\"");
                push_escaped(&mut out, s.as_str());
                out.append("\"");
                out
            },
            JanetLiteral::Number(t) => t.clone(),
            JanetLiteral::Integer(v) => integer_text(*v),
            JanetLiteral::Boolean(b) => {
                proof {
                    reveal_strlit("true");
                    reveal_strlit("false");
                }
                if *b {
                    String::from_str("true")
                } else {
                    String::from_str("false")
                }
            },
            JanetLiteral::Keyword(k) => {
                proof {
                    reveal_strlit(":");
                }
                let mut out = String::from_str(":");
                out.append(k.as_str());
                out
            },
        }
    }
}

impl JanetExpr {
    /// Writes the expression as canonical source text for the interpreter.
    pub fn to_janet_code(&self) -> (r: String)
        ensures
            r@ == expr_text(self@),
        decreases self,
    {
        match self {
            JanetExpr::Literal(l) => l.to_janet_code(),
            JanetExpr::Symbol(s) => s.clone(),
            JanetExpr::List(items) => {
                proof {
                    reveal_strlit("(");
                    reveal_strlit(")");
                }
                let mut out = String::from_str("(");
                push_exprs(&mut out, items);
                out.append(")");
                out
            },
            JanetExpr::Array(items) => {
                proof {
                    reveal_strlit("[");
                    reveal_strlit("]");
                }
                let mut out = String::from_str("[");
                push_exprs(&mut out, items);
                out.append("]");
                out
            },
            JanetExpr::Table(pairs) => {
                proof {
                    reveal_strlit("@{");
                    reveal_strlit("}");
                }
                let mut out = String::from_str("@{");
                push_pairs(&mut out, pairs);
                out.append("}");
                out
            },
        }
    }
}

fn push_exprs(out: &mut String, items: &Vec<JanetExpr>)
    ensures
        final(out)@ == old(out)@ + join_exprs(exprs_view(items@)),
    decreases items,
{
    proof {
        lemma_exprs_view(items@);
    }
    let ghost start = out@;
    let ghost s = exprs_view(items@);
    let mut i: usize = 0;
    assert(s.take(0) =~= Seq::<ExprV>::empty());
    assert(start + join_exprs(Seq::<ExprV>::empty()) =~= start);
    while i < items.len()
        invariant
            i <= items.len(),
            s == exprs_view(items@),
            s.len() == items@.len(),
            forall|j: int| 0 <= j < items@.len() ==> #[trigger] s[j] == items@[j]@,
            out@ == start + join_exprs(s.take(i as int)),
        decreases items.len() - i,
    {
        let item = &items[i];
        assert(s.take(i + 1).drop_last() =~= s.take(i as int));
        assert(s.take(i + 1).last() == item@);
        assert(s.take(i + 1).len() == i + 1);
        let ghost before = out@;
        if i > 0 {
            proof {
                reveal_strlit(" ");
            }
            out.append(" ");
            assert(out@ =~= before + seq![' ']);
        } else {
            assert(s.take(1)[0] == s[0]);
        }
        let ghost mid = out@;
        let text = item.to_janet_code();
        out.append(text.as_str());
        assert(out@ == mid + expr_text(item@));
        proof {
            let t = s.take(i + 1);
            if i == 0 {
                assert(join_exprs(t) == expr_text(t[0]));
            } else {
                assert(join_exprs(t) == join_exprs(t.drop_last()) + seq![' '] + expr_text(t.last()));
            }
        }
        assert(out@ =~= start + join_exprs(s.take(i + 1)));
        i = i + 1;
    }
    assert(s.take(items.len() as int) =~= s);
}

fn push_pairs(out: &mut String, pairs: &Vec<(JanetExpr, JanetExpr)>)
    ensures
        final(out)@ == old(out)@ + join_pairs(pairs_view(pairs@)),
    decreases pairs,
{
    proof {
        lemma_pairs_view(pairs@);
    }
    let ghost start = out@;
    let ghost s = pairs_view(pairs@);
    let mut i: usize = 0;
    assert(s.take(0) =~= Seq::<(ExprV, ExprV)>::empty());
    assert(start + join_pairs(Seq::<(ExprV, ExprV)>::empty()) =~= start);
    while i < pairs.len()
        invariant
            i <= pairs.len(),
            s == pairs_view(pairs@),
            s.len() == pairs@.len(),
            forall|j: int|
                0 <= j < pairs@.len() ==> #[trigger] s[j] == (pairs@[j].0@, pairs@[j].1@),
            out@ == start + join_pairs(s.take(i as int)),
        decreases pairs.len() - i,
    {
        proof {
            reveal_strlit(" ");
        }
        let pair = &pairs[i];
        assert(s.take(i + 1).drop_last() =~= s.take(i as int));
        assert(s.take(i + 1).last() == (pair.0@, pair.1@));
        assert(s.take(i + 1).len() == i + 1);
        if i > 0 {
            out.append(" ");
        } else {
            assert(s.take(1)[0] == s[0]);
        }
        let key = pair.0.to_janet_code();
        out.append(key.as_str());
        out.append(" ");
        let value = pair.1.to_janet_code();
        out.append(value.as_str());
        proof {
            let t = s.take(i + 1);
            if i == 0 {
                assert(join_pairs(t) == expr_text(t[0].0) + seq![' '] + expr_text(t[0].1));
            } else {
                assert(join_pairs(t) == join_pairs(t.drop_last()) + seq![' '] + expr_text(
                    t.last().0,
                ) + seq![' '] + expr_text(t.last().1));
            }
        }
        assert(out@ =~= start + join_pairs(s.take(i + 1)));
        i = i + 1;
    }
    assert(s.take(pairs.len() as int) =~= s);
}

} // verus!
