//! The mathematical semantics of the PEG engine.
//!
//! `RuleS`, `CstS` and `ErrS` mirror the executable data model over `Seq`;
//! a grammar is a `Map` from rule names to rules and a memo table is a `Map`
//! from (rule name, position) pairs to finished results.
//!
//! The meaning of evaluation is given by the recursive functions `s_apply`,
//! `s_eval`, `s_seq`, `s_choice` and `s_many`. Each carries a step budget
//! (`fuel`) that makes the recursive definitions well-founded; a budget of
//! zero yields `ErrS::Unexpected`. The engine evaluates with a budget of
//! `u64::MAX` steps, which no physical run can exhaust, so the budget fixes
//! the definitions without constraining real executions.

use vstd::prelude::*;

use crate::terminal::{pred_matches, PredS};

verus! {

/// A PEG rule, in mathematical form.
pub enum RuleS {
    Empty,
    Terminal(PredS),
    NonStream(Seq<char>),
    Sequence(Seq<RuleS>),
    Choice(Seq<RuleS>),
    Optional(Box<RuleS>),
    ZeroOrMore(Box<RuleS>),
    OneOrMore(Box<RuleS>),
    AndPredicate(Box<RuleS>),
}

/// A concrete syntax tree, in mathematical form.
pub enum CstS {
    Terminal(char),
    Node(Seq<char>, Box<CstS>),
    Sequence(Seq<CstS>),
}

/// A parser error, in mathematical form.
pub enum ErrS {
    CannotFindRule(Seq<char>),
    CannotParseStream,
    CannotFindValidChoice,
    CannotMatchStreamItem,
    EmptyNonOptionalParserResult,
    LeftRecursionNotSupported,
    Unexpected,
}

/// A grammar: rule names to rules, last write winning.
pub type GrammarS = Map<Seq<char>, RuleS>;

/// The outcome of evaluating one rule: the position after the match and an
/// optional tree, or an error.
pub type SRes = Result<(nat, Option<CstS>), ErrS>;

/// The outcome of a repetition: the position after the matches and the
/// collected trees, or an error.
pub type SResMany = Result<(nat, Seq<CstS>), ErrS>;

/// A memo table: (rule name, position) to the recorded outcome. An entry is
/// either a finished result — success or error — or the
/// `LeftRecursionNotSupported` sentinel that stands while the pair's own body
/// is being evaluated.
pub type MemoS = Map<(Seq<char>, nat), SRes>;

/// Applies the named rule at `pos`, memoized: a recorded entry is returned
/// verbatim, success or error; otherwise the left-recursion sentinel is
/// written, the rule is looked up and its body evaluated, and the real
/// outcome — success or error — overwrites the sentinel under the same
/// (name, position) key.
pub open spec fn s_apply(
    g: GrammarS,
    toks: Seq<char>,
    memo: MemoS,
    name: Seq<char>,
    pos: nat,
    fuel: nat,
) -> (MemoS, SRes)
    decreases fuel,
{
    if memo.contains_key((name, pos)) {
        (memo, memo[(name, pos)])
    } else if fuel == 0 {
        (memo, Err(ErrS::Unexpected))
    } else {
        let m1 = memo.insert((name, pos), Err(ErrS::LeftRecursionNotSupported));
        if !g.contains_key(name) {
            (
                m1.insert((name, pos), Err(ErrS::CannotFindRule(name))),
                Err(ErrS::CannotFindRule(name)),
            )
        } else {
            let (m2, r) = s_eval(g, toks, m1, g[name], pos, (fuel - 1) as nat);
            match r {
                Ok((pos2, cst)) => (m2.insert((name, pos), Ok((pos2, cst))), Ok((pos2, cst))),
                Err(e) => (m2.insert((name, pos), Err(e)), Err(e)),
            }
        }
    }
}

/// Evaluates the body of a rule at `pos`.
pub open spec fn s_eval(
    g: GrammarS,
    toks: Seq<char>,
    memo: MemoS,
    rule: RuleS,
    pos: nat,
    fuel: nat,
) -> (MemoS, SRes)
    decreases fuel,
{
    if fuel == 0 {
        (memo, Err(ErrS::Unexpected))
    } else {
        let f = (fuel - 1) as nat;
        match rule {
            RuleS::Empty => (memo, Ok((pos, None))),
            RuleS::Terminal(p) => (
                memo,
                if pos < toks.len() {
                    match pred_matches(p, toks[pos as int]) {
                        Some(t) => Ok(((pos + 1) as nat, Some(CstS::Terminal(t)))),
                        None => Err(ErrS::CannotMatchStreamItem),
                    }
                } else {
                    Err(ErrS::CannotParseStream)
                },
            ),
            RuleS::NonStream(name) => {
                let (m1, r) = s_apply(g, toks, memo, name, pos, f);
                match r {
                    Ok((p1, Some(c))) => (m1, Ok((p1, Some(CstS::Node(name, Box::new(c)))))),
                    Ok((p1, None)) => (m1, Err(ErrS::EmptyNonOptionalParserResult)),
                    Err(e) => (m1, Err(e)),
                }
            },
            RuleS::Sequence(rs) => s_seq(g, toks, memo, rs, 0, pos, Seq::empty(), f),
            RuleS::Choice(rs) => s_choice(g, toks, memo, rs, 0, pos, f),
            RuleS::Optional(r) => {
                let (m1, res) = s_eval(g, toks, memo, *r, pos, f);
                match res {
                    Ok(x) => (m1, Ok(x)),
                    Err(_) => (m1, Ok((pos, None))),
                }
            },
            RuleS::ZeroOrMore(r) => {
                let (m1, res) = s_many(g, toks, memo, *r, pos, Seq::empty(), f);
                match res {
                    Ok((p1, cs)) => if cs.len() == 0 {
                        (m1, Ok((pos, None)))
                    } else if cs.len() == 1 {
                        (m1, Ok((p1, Some(cs[0]))))
                    } else {
                        (m1, Ok((p1, Some(CstS::Sequence(cs)))))
                    },
                    Err(e) => (m1, Err(e)),
                }
            },
            RuleS::OneOrMore(r) => {
                let (m1, res) = s_many(g, toks, memo, *r, pos, Seq::empty(), f);
                match res {
                    Ok((p1, cs)) => if cs.len() == 0 {
                        (m1, Err(ErrS::CannotMatchStreamItem))
                    } else {
                        (m1, Ok((p1, Some(CstS::Sequence(cs)))))
                    },
                    Err(e) => (m1, Err(e)),
                }
            },
            RuleS::AndPredicate(r) => {
                let (m1, res) = s_eval(g, toks, memo, *r, pos, f);
                match res {
                    Ok(_) => (m1, Ok((pos, None))),
                    Err(e) => (m1, Err(e)),
                }
            },
        }
    }
}

/// Evaluates the members of a `Sequence` from index `i` on, threading the
/// position forward and accumulating the non-empty sub-results; the final
/// list collapses: empty to no value, a single tree to that tree, two or
/// more to `CstS::Sequence`.
pub open spec fn s_seq(
    g: GrammarS,
    toks: Seq<char>,
    memo: MemoS,
    rs: Seq<RuleS>,
    i: nat,
    pos: nat,
    acc: Seq<CstS>,
    fuel: nat,
) -> (MemoS, SRes)
    decreases fuel,
{
    if i >= rs.len() {
        (
            memo,
            if acc.len() == 0 {
                Ok((pos, None))
            } else if acc.len() == 1 {
                Ok((pos, Some(acc[0])))
            } else {
                Ok((pos, Some(CstS::Sequence(acc))))
            },
        )
    } else if fuel == 0 {
        (memo, Err(ErrS::Unexpected))
    } else {
        let (m1, r) = s_eval(g, toks, memo, rs[i as int], pos, (fuel - 1) as nat);
        match r {
            Ok((p1, Some(c))) => s_seq(g, toks, m1, rs, i + 1, p1, acc.push(c), (fuel - 1) as nat),
            Ok((p1, None)) => s_seq(g, toks, m1, rs, i + 1, p1, acc, (fuel - 1) as nat),
            Err(e) => (m1, Err(e)),
        }
    }
}

/// Tries the alternatives of a `Choice` from index `i` on, at the one
/// position `pos`: the first success wins; when none succeeds the choice
/// fails with `CannotFindValidChoice`.
pub open spec fn s_choice(
    g: GrammarS,
    toks: Seq<char>,
    memo: MemoS,
    rs: Seq<RuleS>,
    i: nat,
    pos: nat,
    fuel: nat,
) -> (MemoS, SRes)
    decreases fuel,
{
    if i >= rs.len() {
        (memo, Err(ErrS::CannotFindValidChoice))
    } else if fuel == 0 {
        (memo, Err(ErrS::Unexpected))
    } else {
        let (m1, r) = s_eval(g, toks, memo, rs[i as int], pos, (fuel - 1) as nat);
        match r {
            Ok(x) => (m1, Ok(x)),
            Err(_) => s_choice(g, toks, m1, rs, i + 1, pos, (fuel - 1) as nat),
        }
    }
}

/// Repeatedly attempts `rule`, collecting each valued success. The loop ends
/// when an attempt fails (its consumption rolled back) or when an attempt
/// succeeds without a value (its consumption kept).
pub open spec fn s_many(
    g: GrammarS,
    toks: Seq<char>,
    memo: MemoS,
    rule: RuleS,
    pos: nat,
    acc: Seq<CstS>,
    fuel: nat,
) -> (MemoS, SResMany)
    decreases fuel,
{
    if fuel == 0 {
        (memo, Err(ErrS::Unexpected))
    } else {
        let (m1, r) = s_eval(g, toks, memo, rule, pos, (fuel - 1) as nat);
        match r {
            Ok((p1, Some(c))) => s_many(g, toks, m1, rule, p1, acc.push(c), (fuel - 1) as nat),
            Ok((p1, None)) => (m1, Ok((p1, acc))),
            Err(_) => (m1, Ok((pos, acc))),
        }
    }
}

/// The step budget a parse starts with.
pub open spec fn parse_fuel() -> nat {
    u64::MAX as nat
}

/// A whole parse: apply the start rule at position 0 with a fresh memo
/// table, and wrap a valued success in a node named after the start rule.
pub open spec fn s_parse(g: GrammarS, name: Seq<char>, toks: Seq<char>) -> SRes {
    let (m1, r) = s_apply(g, toks, Map::empty(), name, 0, parse_fuel());
    match r {
        Ok((p, Some(c))) => Ok((p, Some(CstS::Node(name, Box::new(c))))),
        Ok((p, None)) => Ok((p, None)),
        Err(e) => Err(e),
    }
}

/// A successful outcome starting at `pos` reports a position no earlier than
/// `pos` and no later than the stream's end; one that carries a value has
/// consumed at least one token.
pub open spec fn res_in_bounds(pos: nat, r: SRes, toks: Seq<char>) -> bool {
    match r {
        Ok((p, c)) => pos <= p && p <= toks.len() && (c is Some ==> p > pos),
        Err(_) => true,
    }
}

/// The bound for a sequence evaluated from `pos` with `acc_len` sub-results
/// already collected: a valued outcome either consumed input or had
/// something collected before.
pub open spec fn seq_in_bounds(pos: nat, acc_len: nat, r: SRes, toks: Seq<char>) -> bool {
    match r {
        Ok((p, c)) => pos <= p && p <= toks.len() && (c is Some ==> p > pos || acc_len > 0),
        Err(_) => true,
    }
}

/// The bound for a repetition's outcome: the collection only grows, and
/// growth consumes input.
pub open spec fn many_in_bounds(pos: nat, acc_len: nat, r: SResMany, toks: Seq<char>) -> bool {
    match r {
        Ok((p, cs)) => pos <= p && p <= toks.len() && cs.len() >= acc_len && (cs.len() > acc_len
            ==> p > pos),
        Err(_) => true,
    }
}

/// Every recorded memo entry respects the bound relative to the position it
/// was recorded at.
pub open spec fn memo_in_bounds(memo: MemoS, toks: Seq<char>) -> bool {
    forall|k: (Seq<char>, nat)|
        #[trigger] memo.contains_key(k) ==> res_in_bounds(k.1, memo[k], toks)
}

/// Applying a rule within the stream keeps every memo entry and the outcome
/// within bounds: the cursor never moves backward and never past the end.
pub proof fn lemma_apply_in_bounds(
    g: GrammarS,
    toks: Seq<char>,
    memo: MemoS,
    name: Seq<char>,
    pos: nat,
    fuel: nat,
)
    requires
        memo_in_bounds(memo, toks),
        pos <= toks.len(),
    ensures
        ({
            let (m2, r) = s_apply(g, toks, memo, name, pos, fuel);
            memo_in_bounds(m2, toks) && res_in_bounds(pos, r, toks)
        }),
    decreases fuel,
{
    if memo.contains_key((name, pos)) {
        assert(res_in_bounds(pos, memo[(name, pos)], toks));
    } else if fuel == 0 {
    } else {
        let m1 = memo.insert((name, pos), Err(ErrS::LeftRecursionNotSupported));
        assert forall|k: (Seq<char>, nat)| #[trigger]
            m1.contains_key(k) implies res_in_bounds(k.1, m1[k], toks) by {
            if k != (name, pos) {
                assert(memo.contains_key(k));
            }
        }
        if !g.contains_key(name) {
            let m3 = m1.insert((name, pos), Err(ErrS::CannotFindRule(name)));
            assert forall|k: (Seq<char>, nat)| #[trigger]
                m3.contains_key(k) implies res_in_bounds(k.1, m3[k], toks) by {
                if k != (name, pos) {
                    assert(m1.contains_key(k));
                }
            }
        } else {
            lemma_eval_in_bounds(g, toks, m1, g[name], pos, (fuel - 1) as nat);
            let (m2, r) = s_eval(g, toks, m1, g[name], pos, (fuel - 1) as nat);
            match r {
                Ok((pos2, cst)) => {
                    let m3 = m2.insert((name, pos), Ok((pos2, cst)));
                    assert forall|k: (Seq<char>, nat)| #[trigger]
                        m3.contains_key(k) implies res_in_bounds(k.1, m3[k], toks) by {
                        if k != (name, pos) {
                            assert(m2.contains_key(k));
                        }
                    }
                },
                Err(e) => {
                    let m3 = m2.insert((name, pos), Err(e));
                    assert forall|k: (Seq<char>, nat)| #[trigger]
                        m3.contains_key(k) implies res_in_bounds(k.1, m3[k], toks) by {
                        if k != (name, pos) {
                            assert(m2.contains_key(k));
                        }
                    }
                },
            }
        }
    }
}

/// Evaluating a rule's body within the stream keeps every memo entry and the
/// outcome within bounds.
pub proof fn lemma_eval_in_bounds(
    g: GrammarS,
    toks: Seq<char>,
    memo: MemoS,
    rule: RuleS,
    pos: nat,
    fuel: nat,
)
    requires
        memo_in_bounds(memo, toks),
        pos <= toks.len(),
    ensures
        ({
            let (m2, r) = s_eval(g, toks, memo, rule, pos, fuel);
            memo_in_bounds(m2, toks) && res_in_bounds(pos, r, toks)
        }),
    decreases fuel,
{
    if fuel == 0 {
    } else {
        let f = (fuel - 1) as nat;
        match rule {
            RuleS::Empty => {},
            RuleS::Terminal(_) => {},
            RuleS::NonStream(name) => {
                lemma_apply_in_bounds(g, toks, memo, name, pos, f);
            },
            RuleS::Sequence(rs) => {
                lemma_seq_in_bounds(g, toks, memo, rs, 0, pos, Seq::empty(), f);
            },
            RuleS::Choice(rs) => {
                lemma_choice_in_bounds(g, toks, memo, rs, 0, pos, f);
            },
            RuleS::Optional(r) => {
                lemma_eval_in_bounds(g, toks, memo, *r, pos, f);
            },
            RuleS::ZeroOrMore(r) => {
                lemma_many_in_bounds(g, toks, memo, *r, pos, Seq::empty(), f);
            },
            RuleS::OneOrMore(r) => {
                lemma_many_in_bounds(g, toks, memo, *r, pos, Seq::empty(), f);
            },
            RuleS::AndPredicate(r) => {
                lemma_eval_in_bounds(g, toks, memo, *r, pos, f);
            },
        }
    }
}

/// The bound for a sequence's members, threaded from `pos`.
pub proof fn lemma_seq_in_bounds(
    g: GrammarS,
    toks: Seq<char>,
    memo: MemoS,
    rs: Seq<RuleS>,
    i: nat,
    pos: nat,
    acc: Seq<CstS>,
    fuel: nat,
)
    requires
        memo_in_bounds(memo, toks),
        pos <= toks.len(),
    ensures
        ({
            let (m2, r) = s_seq(g, toks, memo, rs, i, pos, acc, fuel);
            memo_in_bounds(m2, toks) && seq_in_bounds(pos, acc.len(), r, toks)
        }),
    decreases fuel,
{
    if i >= rs.len() {
    } else if fuel == 0 {
    } else {
        let f = (fuel - 1) as nat;
        lemma_eval_in_bounds(g, toks, memo, rs[i as int], pos, f);
        let (m1, r) = s_eval(g, toks, memo, rs[i as int], pos, f);
        match r {
            Ok((p1, Some(c))) => {
                lemma_seq_in_bounds(g, toks, m1, rs, i + 1, p1, acc.push(c), f);
            },
            Ok((p1, None)) => {
                lemma_seq_in_bounds(g, toks, m1, rs, i + 1, p1, acc, f);
            },
            Err(_) => {},
        }
    }
}

/// The bound for a choice's alternatives, all tried at `pos`.
pub proof fn lemma_choice_in_bounds(
    g: GrammarS,
    toks: Seq<char>,
    memo: MemoS,
    rs: Seq<RuleS>,
    i: nat,
    pos: nat,
    fuel: nat,
)
    requires
        memo_in_bounds(memo, toks),
        pos <= toks.len(),
    ensures
        ({
            let (m2, r) = s_choice(g, toks, memo, rs, i, pos, fuel);
            memo_in_bounds(m2, toks) && res_in_bounds(pos, r, toks)
        }),
    decreases fuel,
{
    if i >= rs.len() {
    } else if fuel == 0 {
    } else {
        let f = (fuel - 1) as nat;
        lemma_eval_in_bounds(g, toks, memo, rs[i as int], pos, f);
        let (m1, r) = s_eval(g, toks, memo, rs[i as int], pos, f);
        match r {
            Ok(_) => {},
            Err(_) => {
                lemma_choice_in_bounds(g, toks, m1, rs, i + 1, pos, f);
            },
        }
    }
}

/// The bound for a repetition, threaded from `pos`.
pub proof fn lemma_many_in_bounds(
    g: GrammarS,
    toks: Seq<char>,
    memo: MemoS,
    rule: RuleS,
    pos: nat,
    acc: Seq<CstS>,
    fuel: nat,
)
    requires
        memo_in_bounds(memo, toks),
        pos <= toks.len(),
    ensures
        ({
            let (m2, r) = s_many(g, toks, memo, rule, pos, acc, fuel);
            memo_in_bounds(m2, toks) && many_in_bounds(pos, acc.len(), r, toks)
        }),
    decreases fuel,
{
    if fuel == 0 {
    } else {
        let f = (fuel - 1) as nat;
        lemma_eval_in_bounds(g, toks, memo, rule, pos, f);
        let (m1, r) = s_eval(g, toks, memo, rule, pos, f);
        match r {
            Ok((p1, Some(c))) => {
                lemma_many_in_bounds(g, toks, m1, rule, p1, acc.push(c), f);
            },
            Ok((p1, None)) => {},
            Err(_) => {},
        }
    }
}

/// A parse stays within the stream: a successful outcome reports a position
/// no later than the stream's end, so the unconsumed remainder is a suffix;
/// and an outcome that carries a tree consumed at least one token.
pub proof fn lemma_parse_in_bounds(g: GrammarS, name: Seq<char>, toks: Seq<char>)
    ensures
        ({
            match s_parse(g, name, toks) {
                Ok((p, c)) => p <= toks.len() && (c is Some ==> p >= 1),
                Err(_) => true,
            }
        }),
{
    lemma_apply_in_bounds(g, toks, Map::empty(), name, 0, parse_fuel());
}

/// Packrat reuse: once a (rule, position) pair is recorded, applying the rule
/// there returns the recorded outcome verbatim — the body is not evaluated
/// again and the memo table is unchanged.
pub proof fn lemma_apply_memo_hit(
    g: GrammarS,
    toks: Seq<char>,
    memo: MemoS,
    name: Seq<char>,
    pos: nat,
    fuel: nat,
)
    requires
        memo.contains_key((name, pos)),
    ensures
        s_apply(g, toks, memo, name, pos, fuel) == (memo, memo[(name, pos)]),
{
}

/// Every entry of `m1` stands unchanged in `m2`.
pub open spec fn memo_preserves(m1: MemoS, m2: MemoS) -> bool {
    forall|k: (Seq<char>, nat)|
        #[trigger] m1.contains_key(k) ==> m2.contains_key(k) && m2[k] == m1[k]
}

/// `memo_preserves` chains.
pub proof fn lemma_memo_preserves_trans(m1: MemoS, m2: MemoS, m3: MemoS)
    requires
        memo_preserves(m1, m2),
        memo_preserves(m2, m3),
    ensures
        memo_preserves(m1, m3),
{
    assert forall|k: (Seq<char>, nat)| #[trigger]
        m1.contains_key(k) implies m3.contains_key(k) && m3[k] == m1[k] by {
        assert(m2.contains_key(k));
    }
}

/// A recorded entry persists: applying a rule never removes or changes any
/// entry that the memo table already held — a cached outcome, once written,
/// stands for the remainder of the parse, whichever branch wrote it.
pub proof fn lemma_apply_preserves_memo(
    g: GrammarS,
    toks: Seq<char>,
    memo: MemoS,
    name: Seq<char>,
    pos: nat,
    fuel: nat,
)
    ensures
        ({
            let (m2, r) = s_apply(g, toks, memo, name, pos, fuel);
            memo_preserves(memo, m2)
        }),
    decreases fuel,
{
    if memo.contains_key((name, pos)) {
    } else if fuel == 0 {
    } else {
        let m1 = memo.insert((name, pos), Err(ErrS::LeftRecursionNotSupported));
        assert(memo_preserves(memo, m1));
        if !g.contains_key(name) {
            let m3 = m1.insert((name, pos), Err(ErrS::CannotFindRule(name)));
            assert(memo_preserves(memo, m3));
        } else {
            lemma_eval_preserves_memo(g, toks, m1, g[name], pos, (fuel - 1) as nat);
            let (m2, r) = s_eval(g, toks, m1, g[name], pos, (fuel - 1) as nat);
            lemma_memo_preserves_trans(memo, m1, m2);
            let fin = match r {
                Ok((pos2, cst)) => m2.insert((name, pos), Ok((pos2, cst))),
                Err(e) => m2.insert((name, pos), Err(e)),
            };
            assert forall|k: (Seq<char>, nat)| #[trigger]
                memo.contains_key(k) implies fin.contains_key(k) && fin[k] == memo[k] by {
                assert(k != (name, pos));
                assert(m2.contains_key(k) && m2[k] == memo[k]);
            }
        }
    }
}

/// Evaluating a rule's body never removes or changes a recorded entry.
pub proof fn lemma_eval_preserves_memo(
    g: GrammarS,
    toks: Seq<char>,
    memo: MemoS,
    rule: RuleS,
    pos: nat,
    fuel: nat,
)
    ensures
        ({
            let (m2, r) = s_eval(g, toks, memo, rule, pos, fuel);
            memo_preserves(memo, m2)
        }),
    decreases fuel,
{
    if fuel == 0 {
    } else {
        let f = (fuel - 1) as nat;
        match rule {
            RuleS::Empty => {},
            RuleS::Terminal(_) => {},
            RuleS::NonStream(name) => {
                lemma_apply_preserves_memo(g, toks, memo, name, pos, f);
            },
            RuleS::Sequence(rs) => {
                lemma_seq_preserves_memo(g, toks, memo, rs, 0, pos, Seq::empty(), f);
            },
            RuleS::Choice(rs) => {
                lemma_choice_preserves_memo(g, toks, memo, rs, 0, pos, f);
            },
            RuleS::Optional(r) => {
                lemma_eval_preserves_memo(g, toks, memo, *r, pos, f);
            },
            RuleS::ZeroOrMore(r) => {
                lemma_many_preserves_memo(g, toks, memo, *r, pos, Seq::empty(), f);
            },
            RuleS::OneOrMore(r) => {
                lemma_many_preserves_memo(g, toks, memo, *r, pos, Seq::empty(), f);
            },
            RuleS::AndPredicate(r) => {
                lemma_eval_preserves_memo(g, toks, memo, *r, pos, f);
            },
        }
    }
}

/// A sequence's members never remove or change a recorded entry.
pub proof fn lemma_seq_preserves_memo(
    g: GrammarS,
    toks: Seq<char>,
    memo: MemoS,
    rs: Seq<RuleS>,
    i: nat,
    pos: nat,
    acc: Seq<CstS>,
    fuel: nat,
)
    ensures
        ({
            let (m2, r) = s_seq(g, toks, memo, rs, i, pos, acc, fuel);
            memo_preserves(memo, m2)
        }),
    decreases fuel,
{
    if i >= rs.len() {
    } else if fuel == 0 {
    } else {
        let f = (fuel - 1) as nat;
        lemma_eval_preserves_memo(g, toks, memo, rs[i as int], pos, f);
        let (m1, r) = s_eval(g, toks, memo, rs[i as int], pos, f);
        match r {
            Ok((p1, Some(c))) => {
                lemma_seq_preserves_memo(g, toks, m1, rs, i + 1, p1, acc.push(c), f);
                let (m2, _) = s_seq(g, toks, m1, rs, i + 1, p1, acc.push(c), f);
                lemma_memo_preserves_trans(memo, m1, m2);
            },
            Ok((p1, None)) => {
                lemma_seq_preserves_memo(g, toks, m1, rs, i + 1, p1, acc, f);
                let (m2, _) = s_seq(g, toks, m1, rs, i + 1, p1, acc, f);
                lemma_memo_preserves_trans(memo, m1, m2);
            },
            Err(_) => {},
        }
    }
}

/// A choice's alternatives never remove or change a recorded entry.
pub proof fn lemma_choice_preserves_memo(
    g: GrammarS,
    toks: Seq<char>,
    memo: MemoS,
    rs: Seq<RuleS>,
    i: nat,
    pos: nat,
    fuel: nat,
)
    ensures
        ({
            let (m2, r) = s_choice(g, toks, memo, rs, i, pos, fuel);
            memo_preserves(memo, m2)
        }),
    decreases fuel,
{
    if i >= rs.len() {
    } else if fuel == 0 {
    } else {
        let f = (fuel - 1) as nat;
        lemma_eval_preserves_memo(g, toks, memo, rs[i as int], pos, f);
        let (m1, r) = s_eval(g, toks, memo, rs[i as int], pos, f);
        match r {
            Ok(_) => {},
            Err(_) => {
                lemma_choice_preserves_memo(g, toks, m1, rs, i + 1, pos, f);
                let (m2, _) = s_choice(g, toks, m1, rs, i + 1, pos, f);
                lemma_memo_preserves_trans(memo, m1, m2);
            },
        }
    }
}

/// A repetition's attempts never remove or change a recorded entry.
pub proof fn lemma_many_preserves_memo(
    g: GrammarS,
    toks: Seq<char>,
    memo: MemoS,
    rule: RuleS,
    pos: nat,
    acc: Seq<CstS>,
    fuel: nat,
)
    ensures
        ({
            let (m2, r) = s_many(g, toks, memo, rule, pos, acc, fuel);
            memo_preserves(memo, m2)
        }),
    decreases fuel,
{
    if fuel == 0 {
    } else {
        let f = (fuel - 1) as nat;
        lemma_eval_preserves_memo(g, toks, memo, rule, pos, f);
        let (m1, r) = s_eval(g, toks, memo, rule, pos, f);
        match r {
            Ok((p1, Some(c))) => {
                lemma_many_preserves_memo(g, toks, m1, rule, p1, acc.push(c), f);
                let (m2, _) = s_many(g, toks, m1, rule, p1, acc.push(c), f);
                lemma_memo_preserves_trans(memo, m1, m2);
            },
            Ok((p1, None)) => {},
            Err(_) => {},
        }
    }
}

/// Packrat recording: applying a rule with any budget left records its
/// outcome — success or error — under (name, position). Together with
/// `lemma_apply_memo_hit` and `lemma_apply_preserves_memo` this is the
/// packrat guarantee: every later application of the same pair within the
/// parse returns that recorded outcome verbatim instead of evaluating the
/// rule's body again.
pub proof fn lemma_apply_records(
    g: GrammarS,
    toks: Seq<char>,
    memo: MemoS,
    name: Seq<char>,
    pos: nat,
    fuel: nat,
)
    requires
        fuel > 0,
    ensures
        ({
            let (m2, r) = s_apply(g, toks, memo, name, pos, fuel);
            m2.contains_key((name, pos)) && m2[(name, pos)] == r
        }),
{
}

/// The left-recursion guard in general: while a (name, position) pair's own
/// body is being evaluated, its sentinel stands in the table — written before
/// the body (`s_apply`), preserved by whatever the body evaluates
/// (`lemma_eval_preserves_memo`) — and a re-entrant application of the pair,
/// direct or through any chain of references, returns
/// `LeftRecursionNotSupported` at once instead of recursing further.
pub proof fn lemma_sentinel_cuts_reentry(
    g: GrammarS,
    toks: Seq<char>,
    memo: MemoS,
    name: Seq<char>,
    pos: nat,
    fuel: nat,
)
    requires
        memo.contains_key((name, pos)),
        memo[(name, pos)] == Err::<(nat, Option<CstS>), ErrS>(ErrS::LeftRecursionNotSupported),
    ensures
        s_apply(g, toks, memo, name, pos, fuel) == (
            memo,
            Err::<(nat, Option<CstS>), ErrS>(ErrS::LeftRecursionNotSupported),
        ),
{
}

/// The left-recursion guard: a rule whose body immediately references the
/// rule itself fails with `LeftRecursionNotSupported` — the re-entrant
/// application sees the sentinel written before the body was entered.
pub proof fn lemma_direct_left_recursion(g: GrammarS, name: Seq<char>, toks: Seq<char>)
    requires
        g.contains_key(name),
        g[name] == RuleS::NonStream(name),
    ensures
        s_parse(g, name, toks) == Err::<(nat, Option<CstS>), ErrS>(
            ErrS::LeftRecursionNotSupported,
        ),
{
    let m0 = Map::<(Seq<char>, nat), SRes>::empty();
    assert(!m0.contains_key((name, 0)));
    let m1 = m0.insert((name, 0), Err(ErrS::LeftRecursionNotSupported));
    let f1 = (parse_fuel() - 1) as nat;
    let f2 = (f1 - 1) as nat;
    assert(m1.contains_key((name, 0)));
    assert(s_apply(g, toks, m1, name, 0, f2) == (m1, m1[(name, 0)]));
    assert(s_eval(g, toks, m1, RuleS::NonStream(name), 0, f1) == (
        m1,
        Err::<(nat, Option<CstS>), ErrS>(ErrS::LeftRecursionNotSupported),
    ));
}

/// Purity of a parse: the outcome is a function of the grammar, the start
/// rule's name and the token stream alone, so re-running an unmodified
/// grammar on an equal stream yields an identical result.
pub proof fn lemma_parse_deterministic(
    g1: GrammarS,
    g2: GrammarS,
    name1: Seq<char>,
    name2: Seq<char>,
    toks1: Seq<char>,
    toks2: Seq<char>,
)
    requires
        g1 == g2,
        name1 == name2,
        toks1 == toks2,
    ensures
        s_parse(g1, name1, toks1) == s_parse(g2, name2, toks2),
{
}

} // verus!
