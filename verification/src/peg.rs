//! The PEG engine: rules, grammars, syntax trees, errors, the backtrackable
//! cursor, the packrat memo table, and the evaluator.
//!
//! Every public operation is specified against the mathematical semantics in
//! `crate::semantics`: a grammar's view is a `Map` from rule names to `RuleS`
//! and `parse` returns exactly what `s_parse` denotes.

use vstd::prelude::*;

use crate::semantics::{
    s_apply, s_choice, s_eval, s_many, s_parse, s_seq, CstS, ErrS, GrammarS, MemoS, RuleS, SRes,
};
use crate::terminal::Pred;

verus! {

/// A PEG rule.
pub enum Rule {
    /// Matches without consuming input.
    Empty,
    /// Matches exactly one token, as the predicate decides.
    Terminal(Pred),
    /// A reference to another rule of the same grammar, resolved by name at
    /// evaluation time.
    NonStream(String),
    /// Matches each member in order.
    Sequence(Vec<Rule>),
    /// Tries each alternative in order; the first success wins.
    Choice(Vec<Rule>),
    /// Matches the inner rule, or succeeds empty.
    Optional(Box<Rule>),
    /// Matches the inner rule any number of times.
    ZeroOrMore(Box<Rule>),
    /// Matches the inner rule one or more times.
    OneOrMore(Box<Rule>),
    /// Non-consuming lookahead.
    AndPredicate(Box<Rule>),
}

/// The concrete syntax tree of a successful match.
#[derive(Debug, PartialEq)]
pub enum CST {
    /// A matched token's semantic value.
    Terminal(char),
    /// The result of matching a named rule, wrapping exactly one child.
    Node(String, Box<CST>),
    /// An ordered list of two or more sub-results (`OneOrMore` alone also
    /// wraps a single sub-result).
    Sequence(Vec<CST>),
}

/// A parser error. Errors drive backtracking and reach the caller only when
/// every alternative has been exhausted.
#[derive(Debug, PartialEq)]
pub enum Error {
    /// The grammar has no rule under the requested name.
    CannotFindRule(String),
    /// A terminal was attempted on an exhausted stream.
    CannotParseStream,
    /// Every alternative of a choice failed.
    CannotFindValidChoice,
    /// A terminal predicate rejected the token, or a `OneOrMore` collected
    /// nothing.
    CannotMatchStreamItem,
    /// A referenced rule matched but produced no value to wrap.
    EmptyNonOptionalParserResult,
    /// A rule re-entered itself at the same position.
    LeftRecursionNotSupported,
    /// The evaluator's step budget ran out.
    Unexpected,
}

/// The mathematical form of a rule.
pub open spec fn rule_view(r: Rule) -> RuleS
    decreases r,
{
    match r {
        Rule::Empty => RuleS::Empty,
        Rule::Terminal(p) => RuleS::Terminal(p@),
        Rule::NonStream(s) => RuleS::NonStream(s@),
        Rule::Sequence(v) => RuleS::Sequence(rule_seq_view(v@)),
        Rule::Choice(v) => RuleS::Choice(rule_seq_view(v@)),
        Rule::Optional(b) => RuleS::Optional(Box::new(rule_view(*b))),
        Rule::ZeroOrMore(b) => RuleS::ZeroOrMore(Box::new(rule_view(*b))),
        Rule::OneOrMore(b) => RuleS::OneOrMore(Box::new(rule_view(*b))),
        Rule::AndPredicate(b) => RuleS::AndPredicate(Box::new(rule_view(*b))),
    }
}

/// The mathematical form of a list of rules.
pub open spec fn rule_seq_view(v: Seq<Rule>) -> Seq<RuleS>
    decreases v,
{
    if v.len() == 0 {
        Seq::empty()
    } else {
        rule_seq_view(v.subrange(0, v.len() - 1)).push(rule_view(v[v.len() - 1]))
    }
}

impl View for Rule {
    type V = RuleS;

    open spec fn view(&self) -> RuleS {
        rule_view(*self)
    }
}

/// `rule_seq_view` is the element-wise image of `rule_view`.
pub proof fn lemma_rule_seq_view(v: Seq<Rule>)
    ensures
        rule_seq_view(v).len() == v.len(),
        forall|i: int| 0 <= i < v.len() ==> rule_seq_view(v)[i] == rule_view(v[i]),
    decreases v.len(),
{
    if v.len() > 0 {
        lemma_rule_seq_view(v.subrange(0, v.len() - 1));
    }
}

/// The mathematical form of a syntax tree.
pub open spec fn cst_view(c: CST) -> CstS
    decreases c,
{
    match c {
        CST::Terminal(t) => CstS::Terminal(t),
        CST::Node(name, child) => CstS::Node(name@, Box::new(cst_view(*child))),
        CST::Sequence(v) => CstS::Sequence(cst_seq_view(v@)),
    }
}

/// The mathematical form of a list of syntax trees.
pub open spec fn cst_seq_view(v: Seq<CST>) -> Seq<CstS>
    decreases v,
{
    if v.len() == 0 {
        Seq::empty()
    } else {
        cst_seq_view(v.subrange(0, v.len() - 1)).push(cst_view(v[v.len() - 1]))
    }
}

impl View for CST {
    type V = CstS;

    open spec fn view(&self) -> CstS {
        cst_view(*self)
    }
}

/// How `cst_view` acts on a terminal.
pub proof fn lemma_cst_terminal_view(t: char)
    ensures
        cst_view(CST::Terminal(t)) == CstS::Terminal(t),
{
}

/// `cst_seq_view` is the element-wise image of `cst_view`.
pub proof fn lemma_cst_seq_view(v: Seq<CST>)
    ensures
        cst_seq_view(v).len() == v.len(),
        forall|i: int| 0 <= i < v.len() ==> cst_seq_view(v)[i] == cst_view(v[i]),
    decreases v.len(),
{
    if v.len() > 0 {
        lemma_cst_seq_view(v.subrange(0, v.len() - 1));
    }
}

/// `cst_seq_view` commutes with `push`.
pub proof fn lemma_cst_seq_view_push(v: Seq<CST>, c: CST)
    ensures
        cst_seq_view(v.push(c)) == cst_seq_view(v).push(cst_view(c)),
{
    assert(v.push(c).subrange(0, v.len() as int) =~= v);
    assert(v.push(c)[v.len() as int] == c);
}

impl Clone for CST {
    /// A deep copy whose mathematical form is unchanged.
    fn clone(&self) -> (res: Self)
        ensures
            res@ == self@,
        decreases *self,
    {
        match self {
            CST::Terminal(t) => CST::Terminal(*t),
            CST::Node(name, child) => CST::Node(name.clone(), Box::new((**child).clone())),
            CST::Sequence(v) => {
                let mut res: Vec<CST> = Vec::new();
                let mut i: usize = 0;
                while i < v.len()
                    invariant
                        i <= v@.len(),
                        res@.len() == i,
                        *self == CST::Sequence(*v),
                        cst_seq_view(res@) == cst_seq_view(v@.subrange(0, i as int)),
                        forall|j: int| 0 <= j < i ==> cst_view(res@[j]) == cst_view(v@[j]),
                    decreases v@.len() - i,
                {
                    proof {
                        assert(decreases_to!(*self => self->Sequence_0));
                        assert(decreases_to!(*v => v@));
                        assert(decreases_to!(v@ => v@[i as int]));
                    }
                    let c = v[i].clone();
                    proof {
                        lemma_cst_seq_view_push(res@, c);
                        lemma_cst_seq_view_push(v@.subrange(0, i as int), v@[i as int]);
                        assert(v@.subrange(0, i as int).push(v@[i as int]) =~= v@.subrange(
                            0,
                            i + 1,
                        ));
                    }
                    res.push(c);
                    i = i + 1;
                }
                proof {
                    assert(v@.subrange(0, v@.len() as int) =~= v@);
                }
                CST::Sequence(res)
            },
        }
    }
}

impl View for Error {
    type V = ErrS;

    open spec fn view(&self) -> ErrS {
        match *self {
            Error::CannotFindRule(s) => ErrS::CannotFindRule(s@),
            Error::CannotParseStream => ErrS::CannotParseStream,
            Error::CannotFindValidChoice => ErrS::CannotFindValidChoice,
            Error::CannotMatchStreamItem => ErrS::CannotMatchStreamItem,
            Error::EmptyNonOptionalParserResult => ErrS::EmptyNonOptionalParserResult,
            Error::LeftRecursionNotSupported => ErrS::LeftRecursionNotSupported,
            Error::Unexpected => ErrS::Unexpected,
        }
    }
}

impl Clone for Error {
    /// A copy whose mathematical form is unchanged.
    fn clone(&self) -> (res: Self)
        ensures
            res@ == self@,
    {
        match self {
            Error::CannotFindRule(s) => Error::CannotFindRule(s.clone()),
            Error::CannotParseStream => Error::CannotParseStream,
            Error::CannotFindValidChoice => Error::CannotFindValidChoice,
            Error::CannotMatchStreamItem => Error::CannotMatchStreamItem,
            Error::EmptyNonOptionalParserResult => Error::EmptyNonOptionalParserResult,
            Error::LeftRecursionNotSupported => Error::LeftRecursionNotSupported,
            Error::Unexpected => Error::Unexpected,
        }
    }
}

/// The mathematical form of a cursor: the whole token stream and the current
/// position in it.
pub struct ParserInputS {
    pub toks: Seq<char>,
    pub pos: nat,
}

/// A backtrackable cursor: the token stream plus an integer position. Clones
/// are independent snapshots; the position grows by exactly one per consumed
/// token.
#[derive(Debug)]
pub struct ParserInput {
    input: Vec<char>,
    pos: usize,
}

impl View for ParserInput {
    type V = ParserInputS;

    closed spec fn view(&self) -> ParserInputS {
        ParserInputS { toks: self.input@, pos: self.pos as nat }
    }
}

impl Clone for ParserInput {
    /// An independent snapshot of the cursor.
    fn clone(&self) -> (res: Self)
        ensures
            res@ == self@,
    {
        let input = self.input.clone();
        proof {
            assert(input@ =~= self.input@);
        }
        ParserInput { input, pos: self.pos }
    }
}

impl ParserInput {
    /// A cursor at the start of the stream.
    fn new(input: Vec<char>) -> (r: ParserInput)
        ensures
            r@ == (ParserInputS { toks: input@, pos: 0 }),
    {
        ParserInput { input, pos: 0 }
    }

    /// Returns the next token and advances, or `None` on an exhausted
    /// stream.
    pub fn next(&mut self) -> (r: Option<char>)
        ensures
            old(self)@.pos < old(self)@.toks.len() ==> r == Some(
                old(self)@.toks[old(self)@.pos as int],
            ) && final(self)@ == (ParserInputS {
                toks: old(self)@.toks,
                pos: old(self)@.pos + 1,
            }),
            old(self)@.pos >= old(self)@.toks.len() ==> r == None::<char> && final(self)@ == old(
                self,
            )@,
    {
        if self.pos < self.input.len() {
            let c = self.input[self.pos];
            self.pos = self.pos + 1;
            Some(c)
        } else {
            None
        }
    }

    /// The current offset: how many tokens have been consumed.
    fn pos(&self) -> (r: usize)
        ensures
            r as nat == self@.pos,
    {
        self.pos
    }

    /// A snapshot of the same stream at another position.
    fn with_pos(&self, pos: usize) -> (r: ParserInput)
        ensures
            r@ == (ParserInputS { toks: self@.toks, pos: pos as nat }),
    {
        let input = self.input.clone();
        proof {
            assert(input@ =~= self.input@);
        }
        ParserInput { input, pos }
    }
}

/// A successful parse: the cursor after the match and the optional tree.
pub type ParserOutput = (ParserInput, Option<CST>);

/// What a parse returns.
pub type ParserResult = Result<ParserOutput, Error>;

/// What a memo table records for a (rule, position) pair: the position after
/// the match and the optional tree, or an error.
type MemoEntry = Result<(usize, Option<CST>), Error>;

/// The mathematical form of an optional tree.
pub open spec fn opt_cst_view(c: Option<CST>) -> Option<CstS> {
    match c {
        Some(x) => Some(cst_view(x)),
        None => None,
    }
}

/// The mathematical form of a memo entry.
pub open spec fn entry_view(e: MemoEntry) -> SRes {
    match e {
        Ok((p, c)) => Ok((p as nat, opt_cst_view(c))),
        Err(err) => Err(err@),
    }
}

/// Whether the executable result `r` over the stream `toks` denotes the
/// mathematical result `s`.
pub open spec fn res_matches(r: ParserResult, toks: Seq<char>, s: SRes) -> bool {
    match r {
        Ok((rest, c)) => rest@.toks == toks && s == Ok::<(nat, Option<CstS>), ErrS>(
            (rest@.pos, opt_cst_view(c)),
        ),
        Err(e) => s == Err::<(nat, Option<CstS>), ErrS>(e@),
    }
}

fn clone_entry(e: &MemoEntry) -> (r: MemoEntry)
    ensures
        entry_view(r) == entry_view(*e),
{
    match e {
        Ok((p, Some(c))) => Ok((*p, Some(c.clone()))),
        Ok((p, None)) => Ok((*p, None)),
        Err(err) => Err(err.clone()),
    }
}

/// The map an association list of memo entries denotes, later entries
/// winning.
pub open spec fn memo_map(s: Seq<(String, usize, MemoEntry)>) -> MemoS
    decreases s,
{
    if s.len() == 0 {
        Map::empty()
    } else {
        let last = s[s.len() - 1];
        memo_map(s.subrange(0, s.len() - 1)).insert((last.0@, last.1 as nat), entry_view(last.2))
    }
}

/// The packrat memoization table of one `parse` call.
struct MemoTable {
    table: Vec<(String, usize, MemoEntry)>,
}

impl View for MemoTable {
    type V = MemoS;

    closed spec fn view(&self) -> MemoS {
        memo_map(self.table@)
    }
}

impl MemoTable {
    /// An empty table.
    fn new() -> (r: MemoTable)
        ensures
            r@ == MemoS::empty(),
    {
        MemoTable { table: Vec::new() }
    }

    /// Records an outcome for (rule, position), overwriting any prior entry.
    fn insert(&mut self, name: String, pos: usize, value: MemoEntry)
        ensures
            final(self)@ == old(self)@.insert((name@, pos as nat), entry_view(value)),
    {
        let ghost s0 = self.table@;
        self.table.push((name, pos, value));
        proof {
            assert(self.table@.subrange(0, s0.len() as int) =~= s0);
        }
    }

    /// Looks up the entry recorded for (rule, position), if any.
    fn get(&self, name: &str, pos: usize) -> (r: Option<&MemoEntry>)
        ensures
            match r {
                Some(e) => self@.contains_key((name@, pos as nat)) && entry_view(*e) == self@[
                    (name@, pos as nat)
                ],
                None => !self@.contains_key((name@, pos as nat)),
            },
    {
        let key: String = name.to_owned();
        let mut found: Option<usize> = None;
        let mut i: usize = 0;
        while i < self.table.len()
            invariant
                i <= self.table@.len(),
                key@ == name@,
                match found {
                    Some(j) => j < i && memo_map(self.table@.subrange(0, i as int)).contains_key(
                        (name@, pos as nat),
                    ) && memo_map(self.table@.subrange(0, i as int))[(name@, pos as nat)]
                        == entry_view(self.table@[j as int].2),
                    None => !memo_map(self.table@.subrange(0, i as int)).contains_key(
                        (name@, pos as nat),
                    ),
                },
            decreases self.table@.len() - i,
        {
            proof {
                assert(self.table@.subrange(0, i + 1).subrange(0, i as int) =~= self.table@
                    .subrange(0, i as int));
                assert(self.table@.subrange(0, i + 1)[i as int] == self.table@[i as int]);
            }
            if self.table[i].0 == key && self.table[i].1 == pos {
                found = Some(i);
            }
            i = i + 1;
        }
        proof {
            assert(self.table@.subrange(0, self.table@.len() as int) =~= self.table@);
        }
        match found {
            Some(j) => Some(&self.table[j].2),
            None => None,
        }
    }
}

/// The map an association list of named rules denotes, later entries
/// winning.
pub open spec fn table_map(s: Seq<(String, Rule)>) -> GrammarS
    decreases s,
{
    if s.len() == 0 {
        Map::empty()
    } else {
        let last = s[s.len() - 1];
        table_map(s.subrange(0, s.len() - 1)).insert(last.0@, rule_view(last.1))
    }
}

/// A grammar: a table of named rules, built by the caller and immutable
/// during a parse.
pub struct Grammar {
    table: Vec<(String, Rule)>,
}

impl View for Grammar {
    type V = GrammarS;

    closed spec fn view(&self) -> GrammarS {
        table_map(self.table@)
    }
}

impl Grammar {
    /// An empty grammar.
    pub fn new() -> (r: Grammar)
        ensures
            r@ == GrammarS::empty(),
    {
        Grammar { table: Vec::new() }
    }

    /// Adds a rule under a name, overwriting any prior rule of that name.
    pub fn insert(&mut self, name: String, rule: Rule)
        ensures
            final(self)@ == old(self)@.insert(name@, rule_view(rule)),
    {
        let ghost s0 = self.table@;
        self.table.push((name, rule));
        proof {
            assert(self.table@.subrange(0, s0.len() as int) =~= s0);
        }
    }

    /// Looks a rule up by name; the only failure is `CannotFindRule`, which
    /// signals a grammar-construction defect.
    fn get(&self, name: &str) -> (r: Result<&Rule, Error>)
        ensures
            match r {
                Ok(rule) => self@.contains_key(name@) && rule_view(*rule) == self@[name@],
                Err(e) => !self@.contains_key(name@) && e@ == ErrS::CannotFindRule(name@),
            },
    {
        let key: String = name.to_owned();
        let mut found: Option<usize> = None;
        let mut i: usize = 0;
        while i < self.table.len()
            invariant
                i <= self.table@.len(),
                key@ == name@,
                match found {
                    Some(j) => j < i && table_map(self.table@.subrange(0, i as int)).contains_key(
                        name@,
                    ) && table_map(self.table@.subrange(0, i as int))[name@] == rule_view(
                        self.table@[j as int].1,
                    ),
                    None => !table_map(self.table@.subrange(0, i as int)).contains_key(name@),
                },
            decreases self.table@.len() - i,
        {
            proof {
                assert(self.table@.subrange(0, i + 1).subrange(0, i as int) =~= self.table@
                    .subrange(0, i as int));
                assert(self.table@.subrange(0, i + 1)[i as int] == self.table@[i as int]);
            }
            if self.table[i].0 == key {
                found = Some(i);
            }
            i = i + 1;
        }
        proof {
            assert(self.table@.subrange(0, self.table@.len() as int) =~= self.table@);
        }
        match found {
            Some(j) => Ok(&self.table[j].1),
            None => Err(Error::CannotFindRule(key)),
        }
    }

    /// Applies the named rule at the cursor's position, memoized: a recorded
    /// outcome is returned verbatim, success or error; otherwise the
    /// left-recursion sentinel is written, the rule is looked up and its body
    /// evaluated, and the real outcome — success or error — overwrites the
    /// sentinel under the same (name, position) key.
    fn apply_rule(&self, memo: &mut MemoTable, rule_name: &str, input: &ParserInput, fuel: u64) -> (r:
        ParserResult)
        ensures
            ({
                let (m2, s) = s_apply(
                    self@,
                    input@.toks,
                    old(memo)@,
                    rule_name@,
                    input@.pos,
                    fuel as nat,
                );
                final(memo)@ == m2 && res_matches(r, input@.toks, s)
            }),
        decreases fuel,
    {
        let pos = input.pos();
        let cached: Option<MemoEntry> = match memo.get(rule_name, pos) {
            Some(e) => Some(clone_entry(e)),
            None => None,
        };
        match cached {
            Some(Ok((p, c))) => {
                return Ok((input.with_pos(p), c));
            },
            Some(Err(e)) => {
                return Err(e);
            },
            None => {},
        }
        if fuel == 0 {
            return Err(Error::Unexpected);
        }
        memo.insert(rule_name.to_owned(), pos, Err(Error::LeftRecursionNotSupported));
        let rule = match self.get(rule_name) {
            Ok(rule) => rule,
            Err(e) => {
                memo.insert(rule_name.to_owned(), pos, Err(e.clone()));
                return Err(e);
            },
        };
        match self.eval_rule(memo, rule, input, fuel - 1) {
            Ok((rest, cst)) => {
                let stored: Option<CST> = match &cst {
                    Some(c) => Some(c.clone()),
                    None => None,
                };
                memo.insert(rule_name.to_owned(), pos, Ok((rest.pos(), stored)));
                Ok((rest, cst))
            },
            Err(e) => {
                memo.insert(rule_name.to_owned(), pos, Err(e.clone()));
                Err(e)
            },
        }
    }

    /// Evaluates the body of a rule against the cursor, returning the cursor
    /// after the match and the optional tree.
    fn eval_rule(&self, memo: &mut MemoTable, rule: &Rule, input: &ParserInput, fuel: u64) -> (r:
        ParserResult)
        ensures
            ({
                let (m2, s) = s_eval(
                    self@,
                    input@.toks,
                    old(memo)@,
                    rule_view(*rule),
                    input@.pos,
                    fuel as nat,
                );
                final(memo)@ == m2 && res_matches(r, input@.toks, s)
            }),
        decreases fuel,
    {
        if fuel == 0 {
            return Err(Error::Unexpected);
        }
        let f = fuel - 1;
        match rule {
            Rule::Empty => Ok((input.clone(), None)),
            Rule::Terminal(p) => {
                let mut rest = input.clone();
                match rest.next() {
                    Some(item) => match p.apply(item) {
                        Some(t) => {
                            proof {
                                lemma_cst_terminal_view(t);
                            }
                            Ok((rest, Some(CST::Terminal(t))))
                        },
                        None => Err(Error::CannotMatchStreamItem),
                    },
                    None => Err(Error::CannotParseStream),
                }
            },
            Rule::NonStream(name) => {
                match self.apply_rule(memo, name.as_str(), input, f) {
                    Ok((rest, res)) => match res {
                        Some(c) => Ok((rest, Some(CST::Node(name.clone(), Box::new(c))))),
                        None => Err(Error::EmptyNonOptionalParserResult),
                    },
                    Err(e) => Err(e),
                }
            },
            Rule::Sequence(rules) => {
                let ghost m0 = memo@;
                let ghost toks = input@.toks;
                let mut cur = input.clone();
                let mut seq_node: Vec<CST> = Vec::new();
                let mut fl: u64 = f;
                let mut i: usize = 0;
                proof {
                    lemma_rule_seq_view(rules@);
                }
                while i < rules.len()
                    invariant
                        i <= rules@.len(),
                        1 <= fuel,
                        f == fuel - 1,
                        fl <= f < fuel,
                        toks == input@.toks,
                        cur@.toks == toks,
                        old(memo)@ == m0,
                        rule_view(*rule) == RuleS::Sequence(rule_seq_view(rules@)),
                        rule_seq_view(rules@).len() == rules@.len(),
                        forall|k: int|
                            0 <= k < rules@.len() ==> rule_seq_view(rules@)[k] == rule_view(
                                rules@[k],
                            ),
                        s_seq(
                            self@,
                            toks,
                            m0,
                            rule_seq_view(rules@),
                            0,
                            input@.pos,
                            Seq::empty(),
                            f as nat,
                        ) == s_seq(
                            self@,
                            toks,
                            memo@,
                            rule_seq_view(rules@),
                            i as nat,
                            cur@.pos,
                            cst_seq_view(seq_node@),
                            fl as nat,
                        ),
                    decreases rules@.len() - i,
                {
                    if fl == 0 {
                        return Err(Error::Unexpected);
                    }
                    match self.eval_rule(memo, &rules[i], &cur, fl - 1) {
                        Ok((rest, item_op)) => {
                            cur = rest;
                            match item_op {
                                Some(c) => {
                                    proof {
                                        lemma_cst_seq_view_push(seq_node@, c);
                                    }
                                    seq_node.push(c);
                                },
                                None => {},
                            }
                        },
                        Err(e) => {
                            return Err(e);
                        },
                    }
                    fl = fl - 1;
                    i = i + 1;
                }
                proof {
                    lemma_cst_seq_view(seq_node@);
                }
                if seq_node.len() == 0 {
                    Ok((cur, None))
                } else if seq_node.len() == 1 {
                    Ok((cur, Some(seq_node[0].clone())))
                } else {
                    Ok((cur, Some(CST::Sequence(seq_node))))
                }
            },
            Rule::Choice(rules) => {
                let ghost m0 = memo@;
                let ghost toks = input@.toks;
                let mut fl: u64 = f;
                let mut i: usize = 0;
                proof {
                    lemma_rule_seq_view(rules@);
                }
                while i < rules.len()
                    invariant
                        i <= rules@.len(),
                        1 <= fuel,
                        f == fuel - 1,
                        fl <= f < fuel,
                        toks == input@.toks,
                        old(memo)@ == m0,
                        rule_view(*rule) == RuleS::Choice(rule_seq_view(rules@)),
                        rule_seq_view(rules@).len() == rules@.len(),
                        forall|k: int|
                            0 <= k < rules@.len() ==> rule_seq_view(rules@)[k] == rule_view(
                                rules@[k],
                            ),
                        s_choice(
                            self@,
                            toks,
                            m0,
                            rule_seq_view(rules@),
                            0,
                            input@.pos,
                            f as nat,
                        ) == s_choice(
                            self@,
                            toks,
                            memo@,
                            rule_seq_view(rules@),
                            i as nat,
                            input@.pos,
                            fl as nat,
                        ),
                    decreases rules@.len() - i,
                {
                    if fl == 0 {
                        return Err(Error::Unexpected);
                    }
                    match self.eval_rule(memo, &rules[i], input, fl - 1) {
                        Ok((rest, cst)) => {
                            return Ok((rest, cst));
                        },
                        Err(_) => {},
                    }
                    fl = fl - 1;
                    i = i + 1;
                }
                Err(Error::CannotFindValidChoice)
            },
            Rule::Optional(inner) => {
                match self.eval_rule(memo, inner, input, f) {
                    Ok((rest, cst_op)) => Ok((rest, cst_op)),
                    Err(_) => Ok((input.clone(), None)),
                }
            },
            Rule::ZeroOrMore(inner) => {
                match self.zero_or_more(memo, inner, input, f) {
                    Ok((rest, csts)) => {
                        proof {
                            lemma_cst_seq_view(csts@);
                        }
                        if csts.len() == 0 {
                            Ok((input.clone(), None))
                        } else if csts.len() == 1 {
                            Ok((rest, Some(csts[0].clone())))
                        } else {
                            Ok((rest, Some(CST::Sequence(csts))))
                        }
                    },
                    Err(e) => Err(e),
                }
            },
            Rule::OneOrMore(inner) => {
                match self.zero_or_more(memo, inner, input, f) {
                    Ok((rest, csts)) => {
                        proof {
                            lemma_cst_seq_view(csts@);
                        }
                        if csts.len() == 0 {
                            Err(Error::CannotMatchStreamItem)
                        } else {
                            Ok((rest, Some(CST::Sequence(csts))))
                        }
                    },
                    Err(e) => Err(e),
                }
            },
            Rule::AndPredicate(inner) => {
                match self.eval_rule(memo, inner, input, f) {
                    Ok(_) => Ok((input.clone(), None)),
                    Err(e) => Err(e),
                }
            },
        }
    }

    /// Repeatedly attempts `rule`, collecting each valued success; ends when
    /// an attempt fails (that attempt's consumption rolled back) or succeeds
    /// without a value (its consumption kept).
    fn zero_or_more(&self, memo: &mut MemoTable, rule: &Rule, input: &ParserInput, fuel: u64) -> (r:
        Result<(ParserInput, Vec<CST>), Error>)
        ensures
            ({
                let (m2, s) = s_many(
                    self@,
                    input@.toks,
                    old(memo)@,
                    rule_view(*rule),
                    input@.pos,
                    Seq::empty(),
                    fuel as nat,
                );
                final(memo)@ == m2 && (match r {
                    Ok((rest, cs)) => rest@.toks == input@.toks && s == Ok::<
                        (nat, Seq<CstS>),
                        ErrS,
                    >((rest@.pos, cst_seq_view(cs@))),
                    Err(e) => s == Err::<(nat, Seq<CstS>), ErrS>(e@),
                })
            }),
        decreases fuel,
    {
        let ghost m0 = memo@;
        let ghost toks = input@.toks;
        let mut cur = input.clone();
        let mut csts: Vec<CST> = Vec::new();
        let mut fl: u64 = fuel;
        loop
            invariant
                fl <= fuel,
                toks == input@.toks,
                cur@.toks == toks,
                old(memo)@ == m0,
                s_many(
                    self@,
                    toks,
                    m0,
                    rule_view(*rule),
                    input@.pos,
                    Seq::empty(),
                    fuel as nat,
                ) == s_many(
                    self@,
                    toks,
                    memo@,
                    rule_view(*rule),
                    cur@.pos,
                    cst_seq_view(csts@),
                    fl as nat,
                ),
            decreases fl,
        {
            if fl == 0 {
                return Err(Error::Unexpected);
            }
            match self.eval_rule(memo, rule, &cur, fl - 1) {
                Ok((rest, cst_op)) => {
                    match cst_op {
                        Some(c) => {
                            proof {
                                lemma_cst_seq_view_push(csts@, c);
                            }
                            cur = rest;
                            csts.push(c);
                        },
                        None => {
                            return Ok((rest, csts));
                        },
                    }
                },
                Err(_) => {
                    return Ok((cur, csts));
                },
            }
            fl = fl - 1;
        }
    }

    /// Parses the token stream against the named start rule: a fresh cursor
    /// and a fresh memo table, the start rule applied at position 0, and a
    /// valued success wrapped in a node named after the rule. The outcome is
    /// exactly what the mathematical semantics `s_parse` denotes for the
    /// grammar, the rule name and the stream.
    pub fn parse(&self, rule_name: &str, input: Vec<char>) -> (r: ParserResult)
        ensures
            res_matches(r, input@, s_parse(self@, rule_name@, input@)),
            r matches Ok((rest, _)) ==> rest@.pos <= input@.len(),
    {
        proof {
            crate::semantics::lemma_parse_in_bounds(self@, rule_name@, input@);
        }
        let mut memo = MemoTable::new();
        let cursor = ParserInput::new(input);
        match self.apply_rule(&mut memo, rule_name, &cursor, u64::MAX) {
            Ok((rest, cst)) => match cst {
                Some(cst) => Ok((rest, Some(CST::Node(rule_name.to_owned(), Box::new(cst))))),
                None => Ok((rest, None)),
            },
            Err(e) => Err(e),
        }
    }
}

} // verus!
