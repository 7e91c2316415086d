//! The abstract syntax tree of the source language and its parser: top-level
//! functions over integers whose bodies are atoms or one binary operation.

use vstd::prelude::*;
use vstd::string::StrSliceExecFns;

use crate::diag::{Loc, LocV};
use crate::lex::{
    lemma_next_token_advances, lexer_wf, spec_next_token, Lexer, LexerV, PErrV, ParseError, Token,
    TokenKind, TokenV,
};

verus! {

/// The two built-in binary operators.
#[derive(Clone, Copy, PartialEq, Eq, Structural)]
pub enum BinopKind {
    Sum,
    Sub,
}

/// A binary operation over two sub-expressions.
pub struct Binop {
    pub kind: BinopKind,
    pub lhs: Box<Expr>,
    pub rhs: Box<Expr>,
}

/// An expression: a non-negative integer literal, a reference to a parameter
/// by name, or a binary operation.
pub enum Expr {
    Number(usize),
    Var(Token),
    Binop(Binop),
}

/// Mathematical image of an [`Expr`].
#[verifier::ext_equal]
pub ghost enum ExprV {
    Number(int),
    Var(TokenV),
    Binop { kind: BinopKind, lhs: Box<ExprV>, rhs: Box<ExprV> },
}

impl View for Expr {
    type V = ExprV;

    open spec fn view(&self) -> ExprV
        decreases self,
    {
        match self {
            Expr::Number(n) => ExprV::Number(*n as int),
            Expr::Var(t) => ExprV::Var(t@),
            Expr::Binop(b) => ExprV::Binop {
                kind: b.kind,
                lhs: Box::new((*b.lhs)@),
                rhs: Box::new((*b.rhs)@),
            },
        }
    }
}

impl DeepView for Expr {
    type V = ExprV;

    open spec fn deep_view(&self) -> ExprV {
        self.view()
    }
}

/// The one parameter type the language knows.
#[derive(Clone, Copy, PartialEq, Eq, Structural)]
pub enum Type {
    Int,
}

/// A declared parameter: its name, its type, and its 0-based position in the
/// declaration order, which is also the virtual register holding it on
/// entry.
pub struct Param {
    pub name: Token,
    pub typ: Type,
    pub index: usize,
}

/// Mathematical image of a [`Param`].
#[verifier::ext_equal]
pub ghost struct ParamV {
    pub name: TokenV,
    pub typ: Type,
    pub index: int,
}

impl View for Param {
    type V = ParamV;

    open spec fn view(&self) -> ParamV {
        ParamV { name: self.name@, typ: self.typ, index: self.index as int }
    }
}

impl DeepView for Param {
    type V = ParamV;

    open spec fn deep_view(&self) -> ParamV {
        self.view()
    }
}

/// A top-level function: its name, its parameters in declaration order, and
/// its body expression.
pub struct Func {
    pub name: Token,
    pub params: Vec<Param>,
    pub body: Expr,
}

/// Mathematical image of a [`Func`].
#[verifier::ext_equal]
pub ghost struct FuncV {
    pub name: TokenV,
    pub params: Seq<ParamV>,
    pub body: ExprV,
}

impl View for Func {
    type V = FuncV;

    open spec fn view(&self) -> FuncV {
        FuncV { name: self.name@, params: self.params.deep_view(), body: self.body@ }
    }
}

impl DeepView for Func {
    type V = FuncV;

    open spec fn deep_view(&self) -> FuncV {
        self.view()
    }
}

/// A whole source module: its functions in declaration order.  Function
/// names are unique in any module the parser accepts.
pub struct Module {
    pub funcs: Vec<Func>,
}

/// Mathematical image of a [`Module`].
#[verifier::ext_equal]
pub ghost struct ModuleV {
    pub funcs: Seq<FuncV>,
}

impl View for Module {
    type V = ModuleV;

    open spec fn view(&self) -> ModuleV {
        ModuleV { funcs: self.funcs.deep_view() }
    }
}

impl DeepView for Module {
    type V = ModuleV;

    open spec fn deep_view(&self) -> ModuleV {
        self.view()
    }
}

impl Default for Module {
    /// A module with no functions.
    fn default() -> (r: Self)
        ensures
            r@.funcs =~= Seq::<FuncV>::empty(),
    {
        let r = Module { funcs: Vec::new() };
        proof {
            assert(r@.funcs =~= Seq::<FuncV>::empty());
        }
        r
    }
}

/// Function names are unique and every parameter list indexes its entries by
/// declaration position; the parser only ever produces such modules.
pub open spec fn module_wf(m: ModuleV) -> bool {
    &&& forall|i: int, j: int|
        0 <= i < j < m.funcs.len() ==> m.funcs[i].name.text != m.funcs[j].name.text
    &&& forall|i: int, k: int|
        0 <= i < m.funcs.len() && 0 <= k < m.funcs[i].params.len()
            ==> #[trigger] m.funcs[i].params[k].index == k
}

/// The first parameter called `name`, in declaration order.
pub open spec fn spec_find_param(params: Seq<ParamV>, name: Seq<char>) -> Option<ParamV>
    decreases params.len(),
{
    if params.len() == 0 {
        None
    } else if params[0].name.text == name {
        Some(params[0])
    } else {
        spec_find_param(params.drop_first(), name)
    }
}

/// What [`spec_find_param`] returns: the first parameter of that name, or
/// nothing when none bears it.
pub proof fn lemma_find_param(params: Seq<ParamV>, name: Seq<char>)
    ensures
        match spec_find_param(params, name) {
            Some(p) => exists|i: int|
                0 <= i < params.len() && params[i] == p && p.name.text == name,
            None => forall|j: int| 0 <= j < params.len() ==> params[j].name.text != name,
        },
    decreases params.len(),
{
    if params.len() > 0 && params[0].name.text != name {
        let rest = params.drop_first();
        lemma_find_param(rest, name);
        assert(forall|j: int| 0 <= j < rest.len() ==> rest[j] == params[j + 1]);
        match spec_find_param(rest, name) {
            Some(p) => {
                let i = choose|i: int| 0 <= i < rest.len() && rest[i] == p && p.name.text == name;
                assert(params[i + 1] == p);
            },
            None => {
                assert forall|j: int| 0 <= j < params.len() implies params[j].name.text
                    != name by {
                    if j > 0 {
                        assert(rest[j - 1].name.text != name);
                    }
                }
            },
        }
    }
}

/// Looks `name` up among the declared parameters.
pub fn find_param<'a>(params: &'a Vec<Param>, name: &String) -> (r: Option<&'a Param>)
    ensures
        match r {
            Some(p) => spec_find_param(params.deep_view(), name@) == Some(p@),
            None => spec_find_param(params.deep_view(), name@) is None,
        },
{
    let n = params.len();
    let mut i: usize = 0;
    while i < n
        invariant
            n == params@.len(),
            0 <= i <= n,
            forall|j: int| 0 <= j < i ==> params.deep_view()[j].name.text != name@,
        decreases n - i,
    {
        if params[i].name.text == *name {
            proof {
                let pv = params.deep_view();
                assert(pv[i as int].name.text == name@);
                lemma_find_param_first(pv, name@, i as int);
            }
            return Some(&params[i]);
        }
        i += 1;
    }
    proof {
        lemma_find_param(params.deep_view(), name@);
    }
    None
}

/// When position `i` holds the first parameter called `name`, the lookup
/// returns exactly that parameter.
pub proof fn lemma_find_param_first(params: Seq<ParamV>, name: Seq<char>, i: int)
    requires
        0 <= i < params.len(),
        params[i].name.text == name,
        forall|j: int| 0 <= j < i ==> params[j].name.text != name,
    ensures
        spec_find_param(params, name) == Some(params[i]),
    decreases i,
{
    if i == 0 {
    } else {
        let rest = params.drop_first();
        assert(forall|j: int| 0 <= j < rest.len() ==> rest[j] == params[j + 1]);
        lemma_find_param_first(rest, name, i - 1);
    }
}


/// An ASCII decimal digit.
pub open spec fn is_digit(c: char) -> bool {
    48 <= c as u32 <= 57
}

/// The value of one decimal digit.
pub open spec fn digit_val(c: char) -> int {
    c as u32 - 48
}

/// Every character of `s` is an ASCII decimal digit.
pub open spec fn all_digits(s: Seq<char>) -> bool {
    forall|i: int| 0 <= i < s.len() ==> is_digit(#[trigger] s[i])
}

/// The value of a string of decimal digits, most significant first.
pub open spec fn digits_val(s: Seq<char>) -> int
    decreases s.len(),
{
    if s.len() == 0 {
        0
    } else {
        digits_val(s.drop_last()) * 10 + digit_val(s.last())
    }
}

/// The value a non-empty all-digit string that fits the machine word parses
/// to; nothing otherwise.  This is how the compiler reads number literals:
/// any other character, an empty literal, or overflow is rejected.
pub open spec fn spec_parse_usize(s: Seq<char>) -> Option<int> {
    if s.len() > 0 && all_digits(s) && digits_val(s) <= usize::MAX {
        Some(digits_val(s))
    } else {
        None
    }
}

/// The value of a digit string is non-negative and never shrinks as the
/// string grows to the right.
pub proof fn lemma_digits_val_mono(s: Seq<char>, j: int)
    requires
        all_digits(s),
        0 <= j <= s.len(),
    ensures
        0 <= digits_val(s.take(j)) <= digits_val(s),
    decreases s.len() - j,
{
    lemma_digits_val_nonneg(s.take(j));
    if j < s.len() {
        assert(s.take(j + 1).drop_last() =~= s.take(j));
        assert(s.take(j + 1).last() == s[j]);
        lemma_digits_val_nonneg(s.take(j));
        assert(digits_val(s.take(j + 1)) == digits_val(s.take(j)) * 10 + digit_val(s[j]));
        assert(digits_val(s.take(j)) * 10 >= digits_val(s.take(j))) by (nonlinear_arith)
            requires
                digits_val(s.take(j)) >= 0,
        ;
        lemma_digits_val_mono(s, j + 1);
    } else {
        assert(s.take(j) =~= s);
    }
}

/// The value of an all-digit string is non-negative.
pub proof fn lemma_digits_val_nonneg(s: Seq<char>)
    requires
        all_digits(s),
    ensures
        digits_val(s) >= 0,
    decreases s.len(),
{
    if s.len() > 0 {
        assert(all_digits(s.drop_last()));
        lemma_digits_val_nonneg(s.drop_last());
        assert(digits_val(s.drop_last()) * 10 >= 0) by (nonlinear_arith)
            requires
                digits_val(s.drop_last()) >= 0,
        ;
    }
}

/// Reads a decimal number: the digits' value when every character is an
/// ASCII digit, the string is not empty, and the value fits the machine
/// word; nothing otherwise.
pub fn parse_usize(text: &String) -> (r: Option<usize>)
    ensures
        match r {
            Some(v) => spec_parse_usize(text@) == Some(v as int),
            None => spec_parse_usize(text@) is None,
        },
{
    let n = text.as_str().unicode_len();
    if n == 0 {
        return None;
    }
    let mut acc: usize = 0;
    let mut i: usize = 0;
    while i < n
        invariant
            n == text@.len(),
            0 < n,
            0 <= i <= n,
            all_digits(text@.take(i as int)),
            acc == digits_val(text@.take(i as int)),
        decreases n - i,
    {
        let c = text.as_str().get_char(i);
        let d = c as u32;
        if d < 48 || d > 57 {
            proof {
                assert(!is_digit(text@[i as int]));
            }
            return None;
        }
        let dv = (d - 48) as usize;
        proof {
            assert(text@.take(i as int + 1).drop_last() =~= text@.take(i as int));
            assert(text@.take(i as int + 1).last() == text@[i as int]);
        }
        let next = match acc.checked_mul(10) {
            Some(t) => t.checked_add(dv),
            None => None,
        };
        match next {
            Some(v) => {
                acc = v;
            },
            None => {
                proof {
                    let full = text@;
                    if all_digits(full) {
                        assert(digits_val(full.take(i as int + 1)) > usize::MAX);
                        lemma_digits_val_mono(full, i as int + 1);
                        assert(digits_val(full.take(full.len() as int)) <= digits_val(full)
                            || full.take(full.len() as int) =~= full);
                        assert(full.take(full.len() as int) =~= full);
                        assert(digits_val(full) > usize::MAX);
                    }
                }
                return None;
            },
        }
        i += 1;
    }
    proof {
        assert(text@.take(n as int) =~= text@);
    }
    Some(acc)
}

/// The operator a `Plus` or `Minus` token stands for.
pub fn binop_of_token(kind: TokenKind) -> (r: Option<BinopKind>)
    ensures
        kind == TokenKind::Plus ==> r == Some(BinopKind::Sum),
        kind == TokenKind::Minus ==> r == Some(BinopKind::Sub),
        kind != TokenKind::Plus && kind != TokenKind::Minus ==> r is None,
{
    match kind {
        TokenKind::Plus => Some(BinopKind::Sum),
        TokenKind::Minus => Some(BinopKind::Sub),
        _ => None,
    }
}

/// The first function called `name`, in declaration order.
pub open spec fn spec_find_func(funcs: Seq<FuncV>, name: Seq<char>) -> Option<FuncV>
    decreases funcs.len(),
{
    if funcs.len() == 0 {
        None
    } else if funcs[0].name.text == name {
        Some(funcs[0])
    } else {
        spec_find_func(funcs.drop_first(), name)
    }
}

/// When position `i` holds the first function called `name`, the lookup
/// returns exactly that function.
pub proof fn lemma_find_func_first(funcs: Seq<FuncV>, name: Seq<char>, i: int)
    requires
        0 <= i < funcs.len(),
        funcs[i].name.text == name,
        forall|j: int| 0 <= j < i ==> funcs[j].name.text != name,
    ensures
        spec_find_func(funcs, name) == Some(funcs[i]),
    decreases i,
{
    if i > 0 {
        let rest = funcs.drop_first();
        assert(forall|j: int| 0 <= j < rest.len() ==> rest[j] == funcs[j + 1]);
        lemma_find_func_first(rest, name, i - 1);
    }
}

/// When no function bears `name` the lookup finds nothing.
pub proof fn lemma_find_func_none(funcs: Seq<FuncV>, name: Seq<char>)
    requires
        forall|j: int| 0 <= j < funcs.len() ==> funcs[j].name.text != name,
    ensures
        spec_find_func(funcs, name) is None,
    decreases funcs.len(),
{
    if funcs.len() > 0 {
        let rest = funcs.drop_first();
        assert(forall|j: int| 0 <= j < rest.len() ==> rest[j] == funcs[j + 1]);
        lemma_find_func_none(rest, name);
    }
}

/// Looks `name` up among the declared functions.
fn find_func<'a>(funcs: &'a Vec<Func>, name: &String) -> (r: Option<&'a Func>)
    ensures
        match r {
            Some(f) => spec_find_func(funcs.deep_view(), name@) == Some(f@),
            None => spec_find_func(funcs.deep_view(), name@) is None,
        },
{
    let n = funcs.len();
    let mut i: usize = 0;
    while i < n
        invariant
            n == funcs@.len(),
            0 <= i <= n,
            forall|j: int| 0 <= j < i ==> funcs.deep_view()[j].name.text != name@,
        decreases n - i,
    {
        if funcs[i].name.text == *name {
            proof {
                let fv = funcs.deep_view();
                assert(fv[i as int].name.text == name@);
                lemma_find_func_first(fv, name@, i as int);
            }
            return Some(&funcs[i]);
        }
        i += 1;
    }
    proof {
        lemma_find_func_none(funcs.deep_view(), name@);
    }
    None
}

/// What parsing one expression atom yields: a number literal, a variable
/// reference, or the first failure.
pub open spec fn spec_parse_expr(lv: LexerV) -> Result<(ExprV, LexerV), PErrV> {
    match Lexer::spec_expect(lv, seq![TokenKind::Number, TokenKind::Ident]) {
        Err(e) => Err(e),
        Ok((t, lv2)) => if t.kind == TokenKind::Ident {
            Ok((ExprV::Var(t), lv2))
        } else {
            match spec_parse_usize(t.text) {
                Some(v) => Ok((ExprV::Number(v), lv2)),
                None => Err(PErrV::InvalidNumber(t)),
            }
        },
    }
}

/// Parsing an expression never moves the cursor backward, and keeps it
/// inside the text on success.
pub proof fn lemma_parse_expr_advances(lv: LexerV)
    ensures
        ({
            match spec_parse_expr(lv) {
                Ok((e, lv2)) => lv.pos < lv2.pos <= lv.content.len() && lv2.content == lv.content
                    && lv2.file_path == lv.file_path && (lexer_wf(lv) ==> lexer_wf(lv2)),
                Err(e) => true,
            }
        }),
{
    lemma_next_token_advances(lv);
}

/// What parsing the parameter list after the open paren yields, given the
/// parameters `acc` already declared: the full list and the state after the
/// closing paren, or the first failure.
pub open spec fn spec_parse_params(lv: LexerV, acc: Seq<ParamV>) -> Result<
    (Seq<ParamV>, LexerV),
    PErrV,
>
    decreases lv.content.len() - lv.pos,
        via spec_parse_params_decreases
{
    match Lexer::spec_expect(lv, seq![TokenKind::Ident, TokenKind::ClosedParen]) {
        Err(e) => Err(e),
        Ok((t, lv1)) => if t.kind == TokenKind::ClosedParen {
            Ok((acc, lv1))
        } else {
            match spec_find_param(acc, t.text) {
                Some(p) => Err(PErrV::ParamRedefinition { name: t, prior: p.name.loc }),
                None => match spec_parse_type(lv1) {
                    Err(e) => Err(e),
                    Ok((ty, lv2)) => spec_parse_params(
                        lv2,
                        acc.push(ParamV { name: t, typ: ty, index: acc.len() as int }),
                    ),
                },
            }
        },
    }
}

#[via_fn]
proof fn spec_parse_params_decreases(lv: LexerV, acc: Seq<ParamV>) {
    lemma_next_token_advances(lv);
    match Lexer::spec_expect(lv, seq![TokenKind::Ident, TokenKind::ClosedParen]) {
        Err(e) => {},
        Ok((t, lv1)) => {
            lemma_next_token_advances(lv1);
        },
    }
}

/// What parsing one parameter type yields: the type named `int`, or the
/// first failure.
pub open spec fn spec_parse_type(lv: LexerV) -> Result<(Type, LexerV), PErrV> {
    match Lexer::spec_expect(lv, seq![TokenKind::Ident]) {
        Err(e) => Err(e),
        Ok((t, lv2)) => if t.text == "int"@ {
            Ok((Type::Int, lv2))
        } else {
            Err(PErrV::UnknownType(t))
        },
    }
}

/// Parsing the parameter list never moves the cursor backward.
pub proof fn lemma_parse_params_advances(lv: LexerV, acc: Seq<ParamV>)
    ensures
        ({
            match spec_parse_params(lv, acc) {
                Ok((ps, lv2)) => lv.pos <= lv2.pos && lv2.content == lv.content
                    && lv2.file_path == lv.file_path && (lexer_wf(lv) ==> lexer_wf(lv2)),
                Err(e) => true,
            }
        }),
    decreases lv.content.len() - lv.pos,
{
    lemma_next_token_advances(lv);
    match Lexer::spec_expect(lv, seq![TokenKind::Ident, TokenKind::ClosedParen]) {
        Err(e) => {},
        Ok((t, lv1)) => {
            if t.kind != TokenKind::ClosedParen {
                match spec_find_param(acc, t.text) {
                    Some(p) => {},
                    None => {
                        lemma_next_token_advances(lv1);
                        match spec_parse_type(lv1) {
                            Err(e) => {},
                            Ok((ty, lv2)) => {
                                lemma_parse_params_advances(
                                    lv2,
                                    acc.push(
                                        ParamV { name: t, typ: ty, index: acc.len() as int },
                                    ),
                                );
                            },
                        }
                    },
                }
            }
        },
    }
}

/// What parsing one definition yields, from the open paren after the
/// function's name on: the function, and the state after its semicolon, or
/// the first failure.  A definition is `( params ) = atom [op atom] ;`.
pub open spec fn spec_parse_func(lv: LexerV, name: TokenV) -> Result<(FuncV, LexerV), PErrV> {
    match Lexer::spec_expect(lv, seq![TokenKind::OpenParen]) {
        Err(e) => Err(e),
        Ok((t2, lv2)) => match spec_parse_params(lv2, Seq::<ParamV>::empty()) {
            Err(e) => Err(e),
            Ok((params, lv3)) => match Lexer::spec_expect(lv3, seq![TokenKind::Equals]) {
                Err(e) => Err(e),
                Ok((t4, lv4)) => match spec_parse_expr(lv4) {
                    Err(e) => Err(e),
                    Ok((lhs, lv5)) => match Lexer::spec_expect(
                        lv5,
                        seq![TokenKind::SemiColon, TokenKind::Plus, TokenKind::Minus],
                    ) {
                        Err(e) => Err(e),
                        Ok((t6, lv6)) => if t6.kind == TokenKind::SemiColon {
                            Ok((FuncV { name, params, body: lhs }, lv6))
                        } else {
                            match spec_parse_expr(lv6) {
                                Err(e) => Err(e),
                                Ok((rhs, lv7)) => match Lexer::spec_expect(
                                    lv7,
                                    seq![TokenKind::SemiColon],
                                ) {
                                    Err(e) => Err(e),
                                    Ok((t8, lv8)) => Ok(
                                        (
                                            FuncV {
                                                name,
                                                params,
                                                body: ExprV::Binop {
                                                    kind: if t6.kind == TokenKind::Plus {
                                                        BinopKind::Sum
                                                    } else {
                                                        BinopKind::Sub
                                                    },
                                                    lhs: Box::new(lhs),
                                                    rhs: Box::new(rhs),
                                                },
                                            },
                                            lv8,
                                        ),
                                    ),
                                },
                            }
                        },
                    },
                },
            },
        },
    }
}

/// Parsing a definition never moves the cursor backward, and keeps it
/// inside the text.
pub proof fn lemma_parse_func_advances(lv: LexerV, name: TokenV)
    ensures
        ({
            match spec_parse_func(lv, name) {
                Ok((f, lv2)) => lv.pos <= lv2.pos && (lv.pos <= lv.content.len() ==> lv2.pos
                    <= lv.content.len()) && lv2.content == lv.content && lv2.file_path
                    == lv.file_path && (lexer_wf(lv) ==> lexer_wf(lv2)),
                Err(e) => true,
            }
        }),
{
    lemma_next_token_advances(lv);
    match Lexer::spec_expect(lv, seq![TokenKind::OpenParen]) {
        Err(e) => {},
        Ok((t2, lv2)) => {
            lemma_parse_params_advances(lv2, Seq::<ParamV>::empty());
            match spec_parse_params(lv2, Seq::<ParamV>::empty()) {
                Err(e) => {},
                Ok((params, lv3)) => {
                    lemma_next_token_advances(lv3);
                    match Lexer::spec_expect(lv3, seq![TokenKind::Equals]) {
                        Err(e) => {},
                        Ok((t4, lv4)) => {
                            lemma_parse_expr_advances(lv4);
                            match spec_parse_expr(lv4) {
                                Err(e) => {},
                                Ok((lhs, lv5)) => {
                                    lemma_next_token_advances(lv5);
                                    match Lexer::spec_expect(
                                        lv5,
                                        seq![
                                            TokenKind::SemiColon,
                                            TokenKind::Plus,
                                            TokenKind::Minus,
                                        ],
                                    ) {
                                        Err(e) => {},
                                        Ok((t6, lv6)) => {
                                            lemma_parse_expr_advances(lv6);
                                            match spec_parse_expr(lv6) {
                                                Err(e) => {},
                                                Ok((rhs, lv7)) => {
                                                    lemma_next_token_advances(lv7);
                                                },
                                            }
                                        },
                                    }
                                },
                            }
                        },
                    }
                },
            }
        },
    }
}

/// What parsing the rest of the module yields, given the functions `acc`
/// already parsed: the functions in declaration order, or the first failure.
/// A module is a run of definitions closed by the end of input; a name
/// already defined is rejected.
pub open spec fn spec_parse_module(lv: LexerV, acc: Seq<FuncV>) -> Result<Seq<FuncV>, PErrV>
    decreases lv.content.len() - lv.pos,
        via spec_parse_module_decreases
{
    match Lexer::spec_expect(lv, seq![TokenKind::Ident, TokenKind::End]) {
        Err(e) => Err(e),
        Ok((name, lv1)) => if name.kind == TokenKind::End {
            Ok(acc)
        } else {
            match spec_find_func(acc, name.text) {
                Some(prior) => Err(PErrV::FuncRedefinition { name, prior: prior.name.loc }),
                None => match spec_parse_func(lv1, name) {
                    Err(e) => Err(e),
                    Ok((f, lv2)) => spec_parse_module(lv2, acc.push(f)),
                },
            }
        },
    }
}

#[via_fn]
proof fn spec_parse_module_decreases(lv: LexerV, acc: Seq<FuncV>) {
    lemma_next_token_advances(lv);
    match Lexer::spec_expect(lv, seq![TokenKind::Ident, TokenKind::End]) {
        Err(e) => {},
        Ok((name, lv1)) => {
            if name.kind != TokenKind::End {
                lemma_parse_func_advances(lv1, name);
            }
        },
    }
}

/// What [`spec_find_func`] returns: the first function of that name, or
/// nothing when none bears it.
pub proof fn lemma_find_func(funcs: Seq<FuncV>, name: Seq<char>)
    ensures
        match spec_find_func(funcs, name) {
            Some(f) => exists|i: int|
                0 <= i < funcs.len() && funcs[i] == f && f.name.text == name,
            None => forall|j: int| 0 <= j < funcs.len() ==> funcs[j].name.text != name,
        },
    decreases funcs.len(),
{
    if funcs.len() > 0 && funcs[0].name.text != name {
        let rest = funcs.drop_first();
        lemma_find_func(rest, name);
        assert(forall|j: int| 0 <= j < rest.len() ==> rest[j] == funcs[j + 1]);
        match spec_find_func(rest, name) {
            Some(f) => {
                let i = choose|i: int| 0 <= i < rest.len() && rest[i] == f && f.name.text == name;
                assert(funcs[i + 1] == f);
            },
            None => {
                assert forall|j: int| 0 <= j < funcs.len() implies funcs[j].name.text != name by {
                    if j > 0 {
                        assert(rest[j - 1].name.text != name);
                    }
                }
            },
        }
    }
}

/// The functions parsed so far have pairwise distinct names and positional
/// parameter indices.
pub open spec fn funcs_wf(fs: Seq<FuncV>) -> bool {
    &&& forall|i: int, j: int| 0 <= i < j < fs.len() ==> fs[i].name.text != fs[j].name.text
    &&& forall|i: int, k: int|
        0 <= i < fs.len() && 0 <= k < fs[i].params.len() ==> #[trigger] fs[i].params[k].index == k
}

/// A parameter list parsed from positionally indexed declarations stays
/// positionally indexed.
pub proof fn lemma_parse_params_wf(lv: LexerV, acc: Seq<ParamV>)
    requires
        forall|k: int| 0 <= k < acc.len() ==> #[trigger] acc[k].index == k,
    ensures
        ({
            match spec_parse_params(lv, acc) {
                Ok((ps, lv2)) => forall|k: int|
                    0 <= k < ps.len() ==> #[trigger] ps[k].index == k,
                Err(e) => true,
            }
        }),
    decreases lv.content.len() - lv.pos,
{
    lemma_next_token_advances(lv);
    match Lexer::spec_expect(lv, seq![TokenKind::Ident, TokenKind::ClosedParen]) {
        Err(e) => {},
        Ok((t, lv1)) => {
            if t.kind != TokenKind::ClosedParen {
                match spec_find_param(acc, t.text) {
                    Some(p) => {},
                    None => {
                        lemma_next_token_advances(lv1);
                        match spec_parse_type(lv1) {
                            Err(e) => {},
                            Ok((ty, lv2)) => {
                                let acc2 = acc.push(
                                    ParamV { name: t, typ: ty, index: acc.len() as int },
                                );
                                assert(forall|k: int|
                                    0 <= k < acc2.len() ==> #[trigger] acc2[k].index == k);
                                lemma_parse_params_wf(lv2, acc2);
                            },
                        }
                    },
                }
            }
        },
    }
}

impl Expr {
    /// Parses one expression atom: a number literal or a variable reference.
    pub fn parse(lexer: &mut Lexer) -> (r: Result<Self, ParseError>)
        requires
            lexer_wf(old(lexer)@),
        ensures
            lexer_wf(final(lexer)@),
            match spec_parse_expr(old(lexer)@) {
                Ok((e, lv2)) => r matches Ok(expr) && expr@ == e && final(lexer)@ == lv2,
                Err(pe) => r matches Err(err) && err@ == pe,
            },
    {
        let expected = [TokenKind::Number, TokenKind::Ident];
        let expected_slice = expected.as_slice();
        proof {
            assert(expected_slice.deep_view() =~= seq![TokenKind::Number, TokenKind::Ident]);
        }
        let token = match lexer.expect_tokens(expected_slice) {
            Ok(t) => t,
            Err(e) => {
                return Err(e);
            },
        };
        proof {
            let s = seq![TokenKind::Number, TokenKind::Ident];
            assert(s.contains(token@.kind));
            let i = choose|i: int| 0 <= i < s.len() && s[i] == token@.kind;
            assert(i == 0 || i == 1);
        }
        match token.kind {
            TokenKind::Ident => Ok(Expr::Var(token)),
            _ => {
                proof {
                    assert(token@.kind == TokenKind::Number);
                }
                match parse_usize(&token.text) {
                    Some(v) => Ok(Expr::Number(v)),
                    None => Err(ParseError::InvalidNumber(token)),
                }
            },
        }
    }
}

impl Type {
    /// Parses one parameter type; only `int` is known.
    pub fn parse(lexer: &mut Lexer) -> (r: Result<Self, ParseError>)
        requires
            lexer_wf(old(lexer)@),
        ensures
            lexer_wf(final(lexer)@),
            match spec_parse_type(old(lexer)@) {
                Ok((t, lv2)) => r matches Ok(ty) && ty == t && final(lexer)@ == lv2,
                Err(pe) => r matches Err(err) && err@ == pe,
            },
    {
        let expected = [TokenKind::Ident];
        let expected_slice = expected.as_slice();
        proof {
            assert(expected_slice.deep_view() =~= seq![TokenKind::Ident]);
        }
        let ident = match lexer.expect_tokens(expected_slice) {
            Ok(t) => t,
            Err(e) => {
                return Err(e);
            },
        };
        let int_name = String::from_str("int");
        if ident.text == int_name {
            Ok(Type::Int)
        } else {
            Err(ParseError::UnknownType(ident))
        }
    }
}

/// Parses the parameter declarations up to and including the closing paren.
fn parse_params(lexer: &mut Lexer) -> (r: Result<Vec<Param>, ParseError>)
    requires
        lexer_wf(old(lexer)@),
    ensures
        lexer_wf(final(lexer)@),
        match spec_parse_params(old(lexer)@, Seq::<ParamV>::empty()) {
            Ok((ps, lv2)) => r matches Ok(v) && v.deep_view() == ps && final(lexer)@ == lv2,
            Err(e) => r matches Err(err) && err@ == e,
        },
{
    let mut params: Vec<Param> = Vec::new();
    proof {
        assert(params.deep_view() =~= Seq::<ParamV>::empty());
    }
    loop
        invariant
            lexer_wf(lexer@),
            spec_parse_params(old(lexer)@, Seq::<ParamV>::empty()) == spec_parse_params(
                lexer@,
                params.deep_view(),
            ),
        decreases lexer@.content.len() - lexer@.pos,
    {
        let ghost lv_head = lexer@;
        let ghost pv_head = params.deep_view();
        let expected = [TokenKind::Ident, TokenKind::ClosedParen];
        let expected_slice = expected.as_slice();
        proof {
            assert(expected_slice.deep_view() =~= seq![
                TokenKind::Ident,
                TokenKind::ClosedParen,
            ]);
            lemma_next_token_advances(lv_head);
        }
        let t = match lexer.expect_tokens(expected_slice) {
            Ok(t) => t,
            Err(e) => {
                return Err(e);
            },
        };
        proof {
            let s = seq![TokenKind::Ident, TokenKind::ClosedParen];
            assert(s.contains(t@.kind));
            let i = choose|i: int| 0 <= i < s.len() && s[i] == t@.kind;
            assert(i == 0 || i == 1);
        }
        match t.kind {
            TokenKind::ClosedParen => {
                return Ok(params);
            },
            _ => {
                proof {
                    assert(t@.kind == TokenKind::Ident);
                }
                match find_param(&params, &t.text) {
                    Some(p) => {
                        let prior = Loc {
                            file_path: p.name.loc.file_path.clone(),
                            row: p.name.loc.row,
                            col: p.name.loc.col,
                        };
                        return Err(ParseError::ParamRedefinition { name: t, prior });
                    },
                    None => {},
                }
                let ghost lv1 = lexer@;
                proof {
                    lemma_next_token_advances(lv1);
                }
                let typ = match Type::parse(lexer) {
                    Ok(ty) => ty,
                    Err(e) => {
                        return Err(e);
                    },
                };
                let index = params.len();
                params.push(Param { name: t, typ, index });
                proof {
                    assert(params.deep_view() =~= pv_head.push(
                        ParamV { name: t@, typ, index: index as int },
                    ));
                }
            },
        }
    }
}

/// Parses one definition from the open paren after `name` on.
fn parse_func(lexer: &mut Lexer, name: Token) -> (r: Result<Func, ParseError>)
    requires
        lexer_wf(old(lexer)@),
    ensures
        lexer_wf(final(lexer)@),
        match spec_parse_func(old(lexer)@, name@) {
            Ok((f, lv2)) => r matches Ok(func) && func@ == f && final(lexer)@ == lv2,
            Err(e) => r matches Err(err) && err@ == e,
        },
{
    let expected_open = [TokenKind::OpenParen];
    let open_slice = expected_open.as_slice();
    proof {
        assert(open_slice.deep_view() =~= seq![TokenKind::OpenParen]);
    }
    match lexer.expect_tokens(open_slice) {
        Ok(t) => {},
        Err(e) => {
            return Err(e);
        },
    }
    let params = match parse_params(lexer) {
        Ok(ps) => ps,
        Err(e) => {
            return Err(e);
        },
    };
    let expected_eq = [TokenKind::Equals];
    let eq_slice = expected_eq.as_slice();
    proof {
        assert(eq_slice.deep_view() =~= seq![TokenKind::Equals]);
    }
    match lexer.expect_tokens(eq_slice) {
        Ok(t) => {},
        Err(e) => {
            return Err(e);
        },
    }
    let lhs = match Expr::parse(lexer) {
        Ok(e) => e,
        Err(e) => {
            return Err(e);
        },
    };
    let expected_op = [TokenKind::SemiColon, TokenKind::Plus, TokenKind::Minus];
    let op_slice = expected_op.as_slice();
    proof {
        assert(op_slice.deep_view() =~= seq![
            TokenKind::SemiColon,
            TokenKind::Plus,
            TokenKind::Minus,
        ]);
    }
    let op = match lexer.expect_tokens(op_slice) {
        Ok(t) => t,
        Err(e) => {
            return Err(e);
        },
    };
    proof {
        let s = seq![TokenKind::SemiColon, TokenKind::Plus, TokenKind::Minus];
        assert(s.contains(op@.kind));
        let i = choose|i: int| 0 <= i < s.len() && s[i] == op@.kind;
        assert(i == 0 || i == 1 || i == 2);
    }
    match op.kind {
        TokenKind::SemiColon => Ok(Func { name, params, body: lhs }),
        _ => {
            proof {
                assert(op@.kind == TokenKind::Plus || op@.kind == TokenKind::Minus);
            }
            let rhs = match Expr::parse(lexer) {
                Ok(e) => e,
                Err(e) => {
                    return Err(e);
                },
            };
            let kind = match binop_of_token(op.kind) {
                Some(k) => k,
                None => {
                    proof {
                        assert(false);
                    }
                    return Err(ParseError::InvalidNumber(op));
                },
            };
            let expected_semi = [TokenKind::SemiColon];
            let semi_slice = expected_semi.as_slice();
            proof {
                assert(semi_slice.deep_view() =~= seq![TokenKind::SemiColon]);
            }
            match lexer.expect_tokens(semi_slice) {
                Ok(t) => {},
                Err(e) => {
                    return Err(e);
                },
            }
            Ok(Func { name, params, body: Expr::Binop(Binop { kind, lhs: Box::new(lhs), rhs: Box::new(rhs) }) })
        },
    }
}

impl Module {
    /// Parses a whole module: a run of function definitions closed by the
    /// end of input.  Accepted modules are well-formed: function names are
    /// unique and parameters are indexed by declaration position.
    pub fn parse(lexer: &mut Lexer) -> (r: Result<Module, ParseError>)
        requires
            lexer_wf(old(lexer)@),
        ensures
            lexer_wf(final(lexer)@),
            match spec_parse_module(old(lexer)@, Seq::<FuncV>::empty()) {
                Ok(fs) => r matches Ok(m) && m@.funcs == fs && module_wf(m@),
                Err(e) => r matches Err(err) && err@ == e,
            },
    {
        let mut funcs: Vec<Func> = Vec::new();
        proof {
            assert(funcs.deep_view() =~= Seq::<FuncV>::empty());
        }
        loop
            invariant
                lexer_wf(lexer@),
                funcs_wf(funcs.deep_view()),
                spec_parse_module(old(lexer)@, Seq::<FuncV>::empty()) == spec_parse_module(
                    lexer@,
                    funcs.deep_view(),
                ),
            decreases lexer@.content.len() - lexer@.pos,
        {
            let ghost lv_head = lexer@;
            let ghost fv_head = funcs.deep_view();
            let expected = [TokenKind::Ident, TokenKind::End];
            let expected_slice = expected.as_slice();
            proof {
                assert(expected_slice.deep_view() =~= seq![TokenKind::Ident, TokenKind::End]);
                lemma_next_token_advances(lv_head);
            }
            let name = match lexer.expect_tokens(expected_slice) {
                Ok(t) => t,
                Err(e) => {
                    return Err(e);
                },
            };
            proof {
                let s = seq![TokenKind::Ident, TokenKind::End];
                assert(s.contains(name@.kind));
                let i = choose|i: int| 0 <= i < s.len() && s[i] == name@.kind;
                assert(i == 0 || i == 1);
            }
            match name.kind {
                TokenKind::End => {
                    let m = Module { funcs };
                    return Ok(m);
                },
                _ => {
                    proof {
                        assert(name@.kind == TokenKind::Ident);
                    }
                    match find_func(&funcs, &name.text) {
                        Some(existing) => {
                            let prior = Loc {
                                file_path: existing.name.loc.file_path.clone(),
                                row: existing.name.loc.row,
                                col: existing.name.loc.col,
                            };
                            return Err(ParseError::FuncRedefinition { name, prior });
                        },
                        None => {},
                    }
                    proof {
                        lemma_find_func(funcs.deep_view(), name@.text);
                        lemma_parse_func_advances(lexer@, name@);
                        match Lexer::spec_expect(lexer@, seq![TokenKind::OpenParen]) {
                            Err(e) => {},
                            Ok((t2, lv2)) => {
                                lemma_parse_params_wf(lv2, Seq::<ParamV>::empty());
                            },
                        }
                    }
                    let func = match parse_func(lexer, name) {
                        Ok(f) => f,
                        Err(e) => {
                            return Err(e);
                        },
                    };
                    funcs.push(func);
                    proof {
                        assert(funcs.deep_view() =~= fv_head.push(func@));
                        assert(funcs_wf(funcs.deep_view()));
                    }
                },
            }
        }
    }
}

/// Parses a whole program: the functions of one source file.
pub fn parse_program(lexer: &mut Lexer) -> (r: Result<Module, ParseError>)
    requires
        lexer_wf(old(lexer)@),
    ensures
        lexer_wf(final(lexer)@),
        match spec_parse_module(old(lexer)@, Seq::<FuncV>::empty()) {
            Ok(fs) => r matches Ok(m) && m@.funcs == fs && module_wf(m@),
            Err(e) => r matches Err(err) && err@ == e,
        },
{
    Module::parse(lexer)
}

} // verus!
