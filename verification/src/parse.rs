//! The recursive-descent parser: drives the tokenizer through a
//! one-token lookahead buffer and builds a syntax tree, or reports the
//! first structural error and stops.
//!
//! The grammar:
//! ```text
//! Block       ::= 'block' Ident '(' ParamList? ')' ':' Type '{' Op* '}'
//! ParamList   ::= Param (',' Param)*
//! Param       ::= Ident ':' Type
//! Type        ::= Ident
//! Op          ::= AssignOp | ReturnOp
//! AssignOp    ::= Ident '=' Ident TypeArgs? OperandList
//! TypeArgs    ::= '<' Type (',' Type)* '>'
//! OperandList ::= Ident (',' Ident)*
//! ReturnOp    ::= 'return' Ident
//! ```

use crate::source::SourceFile;
use crate::source::SourceId;
use crate::span::Span;
use crate::tokenize::char_boundary;
use crate::tokenize::char_index;
use crate::tokenize::lemma_byte_at_mono;
use crate::tokenize::lemma_char_index_of;
use crate::tokenize::lemma_spec_token_range;
use crate::tokenize::span_text;
use crate::tokenize::spec_token;
use crate::tokenize::spec_token_span;
use crate::tokenize::token_text;
use crate::tokenize::Token;
use crate::tokenize::TokenType;
use crate::tokenize::Tokenizer;
use vstd::prelude::*;
use vstd::string::StringExecFns;

verus! {

/// A parsed identifier, owning a copy of the matched source slice so
/// the tree can outlive the tokenizer.
#[derive(Debug)]
pub struct Ident(pub String);

impl View for Ident {
    type V = Seq<char>;

    open spec fn view(&self) -> Seq<char> {
        self.0@
    }
}

/// The identifier texts a list of identifier nodes holds, in order.
pub open spec fn idents_view(v: Seq<Ident>) -> Seq<Seq<char>> {
    v.map_values(|t: Ident| t@)
}

/// A declared block parameter: its name and the name of its type.
#[derive(Debug)]
pub struct BlockParameter {
    pub name: Ident,
    pub param_ty: Ident,
}

/// What a block parameter holds, over plain character sequences.
pub struct SpecParam {
    pub name: Seq<char>,
    pub ty: Seq<char>,
}

impl View for BlockParameter {
    type V = SpecParam;

    open spec fn view(&self) -> SpecParam {
        SpecParam { name: self.name@, ty: self.param_ty@ }
    }
}

/// What a list of parameter nodes holds, in order.
pub open spec fn params_view(v: Seq<BlockParameter>) -> Seq<SpecParam> {
    v.map_values(|p: BlockParameter| p@)
}

/// One operation of a block body: an assignment or a return. Operand
/// and type-argument lists preserve source order.
#[derive(Debug)]
pub enum NodeOp {
    Assign { result: Ident, op_name: Ident, type_args: Vec<Ident>, operands: Vec<Ident> },
    Return { value: Ident },
}

/// What an operation holds, over plain character sequences.
pub enum SpecOp {
    Assign {
        result: Seq<char>,
        op_name: Seq<char>,
        type_args: Seq<Seq<char>>,
        operands: Seq<Seq<char>>,
    },
    Return { value: Seq<char> },
}

impl View for NodeOp {
    type V = SpecOp;

    open spec fn view(&self) -> SpecOp {
        match self {
            NodeOp::Assign { result, op_name, type_args, operands } => SpecOp::Assign {
                result: result@,
                op_name: op_name@,
                type_args: idents_view(type_args@),
                operands: idents_view(operands@),
            },
            NodeOp::Return { value } => SpecOp::Return { value: value@ },
        }
    }
}

/// What a list of operation nodes holds, in order.
pub open spec fn ops_view(v: Seq<NodeOp>) -> Seq<SpecOp> {
    v.map_values(|o: NodeOp| o@)
}

proof fn lemma_idents_view_push(v: Seq<Ident>, x: Ident)
    ensures
        idents_view(v.push(x)) == idents_view(v).push(x@),
{
    assert(idents_view(v.push(x)) =~= idents_view(v).push(x@));
}

proof fn lemma_params_view_push(v: Seq<BlockParameter>, x: BlockParameter)
    ensures
        params_view(v.push(x)) == params_view(v).push(x@),
{
    assert(params_view(v.push(x)) =~= params_view(v).push(x@));
}

proof fn lemma_ops_view_push(v: Seq<NodeOp>, x: NodeOp)
    ensures
        ops_view(v.push(x)) == ops_view(v).push(x@),
{
    assert(ops_view(v.push(x)) =~= ops_view(v).push(x@));
}

/// A parsed block: its name, its parameters in source order, its
/// return type, and its operations in source order.
#[derive(Debug)]
pub struct NodeBlock {
    pub name: Ident,
    pub parameters: Vec<BlockParameter>,
    pub return_type: Ident,
    pub ops: Vec<NodeOp>,
}

/// What a block holds, over plain character sequences.
pub struct SpecBlock {
    pub name: Seq<char>,
    pub params: Seq<SpecParam>,
    pub return_type: Seq<char>,
    pub ops: Seq<SpecOp>,
}

impl View for NodeBlock {
    type V = SpecBlock;

    open spec fn view(&self) -> SpecBlock {
        SpecBlock {
            name: self.name@,
            params: params_view(self.parameters@),
            return_type: self.return_type@,
            ops: ops_view(self.ops@),
        }
    }
}

/// A structured parse failure. Every variant carries enough to build a
/// report without re-scanning the source text.
#[derive(Debug)]
pub enum ParseError {
    UnexpectedToken { source_id: SourceId, expected_any: Vec<TokenType>, found: Token },
}

/// The outcome of one grammar production in the model: the parsed
/// value and the position it ends at, or the acceptable token kinds
/// and the position of the token that matched none of them.
pub enum Parsed<T> {
    Done { v: T, next: int },
    Fail { expected: Seq<TokenType>, at: int },
}

/// The characters of the word `return`, which opens a return
/// operation. It is not a reserved word: any other identifier in the
/// same position opens an assignment.
pub open spec fn spec_kw_return() -> Seq<char> {
    seq!['r', 'e', 't', 'u', 'r', 'n']
}

/// `Param ::= Ident ':' Type`, scanned from `p`.
pub open spec fn sp_param(s: Seq<char>, p: int) -> Parsed<SpecParam> {
    let name = spec_token(s, p);
    if name.kind != TokenType::Ident {
        Parsed::Fail { expected: seq![TokenType::Ident], at: p }
    } else {
        let colon = spec_token(s, name.end);
        if colon.kind != TokenType::Colon {
            Parsed::Fail { expected: seq![TokenType::Colon], at: name.end }
        } else {
            let ty = spec_token(s, colon.end);
            if ty.kind != TokenType::Ident {
                Parsed::Fail { expected: seq![TokenType::Ident], at: colon.end }
            } else {
                Parsed::Done {
                    v: SpecParam { name: token_text(s, p), ty: token_text(s, colon.end) },
                    next: ty.end,
                }
            }
        }
    }
}

pub proof fn lemma_sp_param_next(s: Seq<char>, p: int)
    requires
        0 <= p <= s.len(),
    ensures
        match sp_param(s, p) {
            Parsed::Done { v, next } => p < next <= s.len(),
            Parsed::Fail { expected, at } => p <= at <= s.len(),
        },
{
    lemma_spec_token_range(s, p);
    let name = spec_token(s, p);
    if name.kind == TokenType::Ident {
        lemma_spec_token_range(s, name.end);
        let colon = spec_token(s, name.end);
        if colon.kind == TokenType::Colon {
            lemma_spec_token_range(s, colon.end);
        }
    }
}

/// `Param (',' Param)* ')'`, scanned from the start of the first
/// parameter. After each parameter the closing parenthesis stops the
/// list and a comma continues it; the comma admits no trailing use.
pub open spec fn sp_params_loop(s: Seq<char>, p: int) -> Parsed<Seq<SpecParam>>
    decreases s.len() - p,
    when 0 <= p <= s.len()
{
    match sp_param(s, p) {
        Parsed::Fail { expected, at } => Parsed::Fail { expected, at },
        Parsed::Done { v: param, next: q } => {
            let sep = spec_token(s, q);
            if sep.kind == TokenType::RParen {
                Parsed::Done { v: seq![param], next: sep.end }
            } else if sep.kind == TokenType::Comma {
                proof {
                    lemma_sp_param_next(s, p);
                    lemma_spec_token_range(s, q);
                }
                match sp_params_loop(s, sep.end) {
                    Parsed::Done { v: rest, next } => Parsed::Done { v: seq![param] + rest, next },
                    Parsed::Fail { expected, at } => Parsed::Fail { expected, at },
                }
            } else {
                Parsed::Fail { expected: seq![TokenType::RParen, TokenType::Comma], at: q }
            }
        },
    }
}

/// `ParamList? ')'`, scanned from just past the opening parenthesis: a
/// closing parenthesis right away means no parameters.
pub open spec fn sp_param_list(s: Seq<char>, p: int) -> Parsed<Seq<SpecParam>> {
    let first = spec_token(s, p);
    if first.kind == TokenType::RParen {
        Parsed::Done { v: Seq::empty(), next: first.end }
    } else if first.kind == TokenType::Ident {
        sp_params_loop(s, p)
    } else {
        Parsed::Fail { expected: seq![TokenType::RParen, TokenType::Ident], at: p }
    }
}

/// `Type (',' Type)* '>'`, scanned from the start of the first type
/// argument, just past the opening angle bracket.
pub open spec fn sp_type_args_loop(s: Seq<char>, p: int) -> Parsed<Seq<Seq<char>>>
    decreases s.len() - p,
    when 0 <= p <= s.len()
{
    let ty = spec_token(s, p);
    if ty.kind != TokenType::Ident {
        Parsed::Fail { expected: seq![TokenType::Ident], at: p }
    } else {
        let sep = spec_token(s, ty.end);
        if sep.kind == TokenType::RAngle {
            Parsed::Done { v: seq![token_text(s, p)], next: sep.end }
        } else if sep.kind == TokenType::Comma {
            proof {
                lemma_spec_token_range(s, p);
                lemma_spec_token_range(s, ty.end);
            }
            match sp_type_args_loop(s, sep.end) {
                Parsed::Done { v: rest, next } => Parsed::Done {
                    v: seq![token_text(s, p)] + rest,
                    next,
                },
                Parsed::Fail { expected, at } => Parsed::Fail { expected, at },
            }
        } else {
            Parsed::Fail { expected: seq![TokenType::RAngle, TokenType::Comma], at: ty.end }
        }
    }
}

pub proof fn lemma_sp_type_args_loop_next(s: Seq<char>, p: int)
    requires
        0 <= p <= s.len(),
    ensures
        match sp_type_args_loop(s, p) {
            Parsed::Done { v, next } => p < next <= s.len(),
            Parsed::Fail { expected, at } => p <= at <= s.len(),
        },
    decreases s.len() - p,
{
    lemma_spec_token_range(s, p);
    let ty = spec_token(s, p);
    if ty.kind == TokenType::Ident {
        lemma_spec_token_range(s, ty.end);
        let sep = spec_token(s, ty.end);
        if sep.kind == TokenType::Comma {
            lemma_sp_type_args_loop_next(s, sep.end);
        }
    }
}

/// `(',' Ident)*`, scanned from just past an operand: each comma must
/// be followed by one more operand; anything but a comma ends the
/// list, consuming nothing.
pub open spec fn sp_operands_more(s: Seq<char>, p: int) -> Parsed<Seq<Seq<char>>>
    decreases s.len() - p,
    when 0 <= p <= s.len()
{
    let sep = spec_token(s, p);
    if sep.kind == TokenType::Comma {
        let o = spec_token(s, sep.end);
        if o.kind != TokenType::Ident {
            Parsed::Fail { expected: seq![TokenType::Ident], at: sep.end }
        } else {
            proof {
                lemma_spec_token_range(s, p);
                lemma_spec_token_range(s, sep.end);
            }
            match sp_operands_more(s, o.end) {
                Parsed::Done { v: rest, next } => Parsed::Done {
                    v: seq![token_text(s, sep.end)] + rest,
                    next,
                },
                Parsed::Fail { expected, at } => Parsed::Fail { expected, at },
            }
        }
    } else {
        Parsed::Done { v: Seq::empty(), next: p }
    }
}

pub proof fn lemma_sp_operands_more_next(s: Seq<char>, p: int)
    requires
        0 <= p <= s.len(),
    ensures
        match sp_operands_more(s, p) {
            Parsed::Done { v, next } => p <= next <= s.len(),
            Parsed::Fail { expected, at } => p <= at <= s.len(),
        },
    decreases s.len() - p,
{
    lemma_spec_token_range(s, p);
    let sep = spec_token(s, p);
    if sep.kind == TokenType::Comma {
        lemma_spec_token_range(s, sep.end);
        let o = spec_token(s, sep.end);
        if o.kind == TokenType::Ident {
            lemma_sp_operands_more_next(s, o.end);
        }
    }
}

/// `OperandList ::= Ident (',' Ident)*`, scanned from the start of the
/// first operand.
pub open spec fn sp_operand_list(s: Seq<char>, p: int) -> Parsed<Seq<Seq<char>>> {
    let o1 = spec_token(s, p);
    if o1.kind != TokenType::Ident {
        Parsed::Fail { expected: seq![TokenType::Ident], at: p }
    } else {
        match sp_operands_more(s, o1.end) {
            Parsed::Done { v: rest, next } => Parsed::Done { v: seq![token_text(s, p)] + rest, next },
            Parsed::Fail { expected, at } => Parsed::Fail { expected, at },
        }
    }
}

pub proof fn lemma_sp_operand_list_next(s: Seq<char>, p: int)
    requires
        0 <= p <= s.len(),
    ensures
        match sp_operand_list(s, p) {
            Parsed::Done { v, next } => p < next <= s.len(),
            Parsed::Fail { expected, at } => p <= at <= s.len(),
        },
{
    lemma_spec_token_range(s, p);
    let o1 = spec_token(s, p);
    if o1.kind == TokenType::Ident {
        lemma_sp_operands_more_next(s, o1.end);
    }
}

/// `AssignOp ::= Ident '=' Ident TypeArgs? OperandList`, scanned from
/// the result identifier at `p`.
pub open spec fn sp_assign(s: Seq<char>, p: int) -> Parsed<SpecOp> {
    let t = spec_token(s, p);
    let eq = spec_token(s, t.end);
    if eq.kind != TokenType::Equal {
        Parsed::Fail { expected: seq![TokenType::Equal], at: t.end }
    } else {
        let on = spec_token(s, eq.end);
        if on.kind != TokenType::Ident {
            Parsed::Fail { expected: seq![TokenType::Ident], at: eq.end }
        } else {
            let la = spec_token(s, on.end);
            let targs_out = if la.kind == TokenType::LAngle {
                sp_type_args_loop(s, la.end)
            } else {
                Parsed::Done { v: Seq::empty(), next: on.end }
            };
            match targs_out {
                Parsed::Fail { expected, at } => Parsed::Fail { expected, at },
                Parsed::Done { v: targs, next: q } => {
                    match sp_operand_list(s, q) {
                        Parsed::Fail { expected, at } => Parsed::Fail { expected, at },
                        Parsed::Done { v: operands, next } => Parsed::Done {
                            v: SpecOp::Assign {
                                result: token_text(s, p),
                                op_name: token_text(s, eq.end),
                                type_args: targs,
                                operands,
                            },
                            next,
                        },
                    }
                },
            }
        }
    }
}

pub proof fn lemma_sp_assign_next(s: Seq<char>, p: int)
    requires
        0 <= p <= s.len(),
        spec_token(s, p).kind != TokenType::Eof,
    ensures
        match sp_assign(s, p) {
            Parsed::Done { v, next } => p < next <= s.len(),
            Parsed::Fail { expected, at } => p <= at <= s.len(),
        },
{
    lemma_spec_token_range(s, p);
    let t = spec_token(s, p);
    lemma_spec_token_range(s, t.end);
    let eq = spec_token(s, t.end);
    if eq.kind == TokenType::Equal {
        lemma_spec_token_range(s, eq.end);
        let on = spec_token(s, eq.end);
        if on.kind == TokenType::Ident {
            lemma_spec_token_range(s, on.end);
            let la = spec_token(s, on.end);
            if la.kind == TokenType::LAngle {
                lemma_sp_type_args_loop_next(s, la.end);
            }
            let targs_out = if la.kind == TokenType::LAngle {
                sp_type_args_loop(s, la.end)
            } else {
                Parsed::Done { v: Seq::<Seq<char>>::empty(), next: on.end }
            };
            match targs_out {
                Parsed::Fail { .. } => {},
                Parsed::Done { v: targs, next: q } => {
                    lemma_sp_operand_list_next(s, q);
                },
            }
        }
    }
}

/// `Op* '}'`, scanned from an operation boundary inside the block
/// body: a closing brace ends the body; an identifier begins an
/// operation, a return operation when it spells `return`.
pub open spec fn sp_ops(s: Seq<char>, p: int) -> Parsed<Seq<SpecOp>>
    decreases s.len() - p,
    when 0 <= p <= s.len()
{
    let t = spec_token(s, p);
    if t.kind == TokenType::Close {
        Parsed::Done { v: Seq::empty(), next: t.end }
    } else if t.kind == TokenType::Ident {
        if token_text(s, p) == spec_kw_return() {
            let v = spec_token(s, t.end);
            if v.kind != TokenType::Ident {
                Parsed::Fail { expected: seq![TokenType::Ident], at: t.end }
            } else {
                proof {
                    lemma_spec_token_range(s, p);
                    lemma_spec_token_range(s, t.end);
                }
                match sp_ops(s, v.end) {
                    Parsed::Done { v: rest, next } => Parsed::Done {
                        v: seq![SpecOp::Return { value: token_text(s, t.end) }] + rest,
                        next,
                    },
                    Parsed::Fail { expected, at } => Parsed::Fail { expected, at },
                }
            }
        } else {
            match sp_assign(s, p) {
                Parsed::Fail { expected, at } => Parsed::Fail { expected, at },
                Parsed::Done { v: op, next: q } => {
                    proof {
                        lemma_spec_token_range(s, p);
                        lemma_sp_assign_next(s, p);
                    }
                    match sp_ops(s, q) {
                        Parsed::Done { v: rest, next } => Parsed::Done { v: seq![op] + rest, next },
                        Parsed::Fail { expected, at } => Parsed::Fail { expected, at },
                    }
                },
            }
        }
    } else {
        Parsed::Fail { expected: seq![TokenType::Close, TokenType::Ident], at: p }
    }
}

/// `Block ::= 'block' Ident '(' ParamList? ')' ':' Type '{' Op* '}'`,
/// scanned from `p`. What the parse entry point must produce.
pub open spec fn sp_block(s: Seq<char>, p: int) -> Parsed<SpecBlock> {
    let kw = spec_token(s, p);
    if kw.kind != TokenType::KWBlock {
        Parsed::Fail { expected: seq![TokenType::KWBlock], at: p }
    } else {
        let nm = spec_token(s, kw.end);
        if nm.kind != TokenType::Ident {
            Parsed::Fail { expected: seq![TokenType::Ident], at: kw.end }
        } else {
            let lp = spec_token(s, nm.end);
            if lp.kind != TokenType::LParen {
                Parsed::Fail { expected: seq![TokenType::LParen], at: nm.end }
            } else {
                match sp_param_list(s, lp.end) {
                    Parsed::Fail { expected, at } => Parsed::Fail { expected, at },
                    Parsed::Done { v: params, next: q } => {
                        let co = spec_token(s, q);
                        if co.kind != TokenType::Colon {
                            Parsed::Fail { expected: seq![TokenType::Colon], at: q }
                        } else {
                            let rt = spec_token(s, co.end);
                            if rt.kind != TokenType::Ident {
                                Parsed::Fail { expected: seq![TokenType::Ident], at: co.end }
                            } else {
                                let op = spec_token(s, rt.end);
                                if op.kind != TokenType::Open {
                                    Parsed::Fail { expected: seq![TokenType::Open], at: rt.end }
                                } else {
                                    match sp_ops(s, op.end) {
                                        Parsed::Fail { expected, at } => Parsed::Fail {
                                            expected,
                                            at,
                                        },
                                        Parsed::Done { v: ops, next } => Parsed::Done {
                                            v: SpecBlock {
                                                name: token_text(s, kw.end),
                                                params,
                                                return_type: token_text(s, co.end),
                                                ops,
                                            },
                                            next,
                                        },
                                    }
                                }
                            }
                        }
                    },
                }
            }
        }
    }
}

/// Whether the exec-level error `e` reports exactly the failure that
/// the model outcome `r` holds: same acceptable kinds in the same
/// order, and the found token scanned at the failure position in `s`,
/// for the file `f`.
pub open spec fn matches_err<T>(r: Parsed<T>, e: ParseError, s: Seq<char>, f: SourceFile) -> bool {
    match r {
        Parsed::Fail { expected, at } => match e {
            ParseError::UnexpectedToken { source_id, expected_any, found } => {
                &&& source_id == f.spec_id()
                &&& expected_any@ == expected
                &&& found.spec_kind() == spec_token(s, at).kind
                &&& found.spec_span() == spec_token_span(s, at)
            },
        },
        Parsed::Done { .. } => false,
    }
}

/// A one-slot lookahead buffer over a tokenizer: at most one pulled
/// but unconsumed token. All the lookahead the grammar needs.
struct TokenPeeker<'a> {
    peeked: Option<Token>,
    tokenizer: Tokenizer<'a>,
    at: Ghost<int>,
}

impl<'a> TokenPeeker<'a> {
    spec fn text(self) -> Seq<char> {
        self.tokenizer.text()
    }

    spec fn spec_file(self) -> SourceFile {
        self.tokenizer.spec_file()
    }

    /// The stream position: where the buffered token was scanned from,
    /// or the tokenizer's cursor when the buffer is empty.
    spec fn pos(self) -> int {
        match self.peeked {
            Some(_) => self.at@,
            None => self.tokenizer.spec_pos(),
        }
    }

    spec fn wf(self) -> bool {
        &&& self.tokenizer.wf()
        &&& match self.peeked {
            Some(t) => {
                &&& 0 <= self.at@ <= self.text().len()
                &&& self.tokenizer.spec_pos() == spec_token(self.text(), self.at@).end
                &&& t.spec_kind() == spec_token(self.text(), self.at@).kind
                &&& t.spec_span() == spec_token_span(self.text(), self.at@)
            },
            None => true,
        }
    }

    proof fn lemma_wf(self)
        requires
            self.wf(),
        ensures
            0 <= self.pos() <= self.text().len(),
    {
        if self.peeked is None {
            self.tokenizer.lemma_wf();
        }
    }

    fn new(file: &'a SourceFile) -> (p: TokenPeeker<'a>)
        ensures
            p.wf(),
            p.spec_file() == *file,
            p.pos() == 0,
    {
        TokenPeeker { peeked: None, tokenizer: Tokenizer::new(file), at: Ghost(0) }
    }

    fn file(&self) -> (f: &'a SourceFile)
        ensures
            *f == self.spec_file(),
    {
        self.tokenizer.file()
    }

    /// The next token, without consuming it: pulls one into the buffer
    /// when the buffer is empty. Idempotent.
    fn peek(&mut self) -> (t: Token)
        requires
            old(self).wf(),
        ensures
            final(self).wf(),
            final(self).text() == old(self).text(),
            final(self).spec_file() == old(self).spec_file(),
            final(self).pos() == old(self).pos(),
            0 <= final(self).pos() <= final(self).text().len(),
            t.spec_kind() == spec_token(old(self).text(), old(self).pos()).kind,
            t.spec_span() == spec_token_span(old(self).text(), old(self).pos()),
    {
        proof {
            self.lemma_wf();
        }
        match self.peeked {
            Some(t) => t,
            None => {
                let ghost q = self.tokenizer.spec_pos();
                let t = self.tokenizer.token();
                self.peeked = Some(t);
                self.at = Ghost(q);
                t
            },
        }
    }

    /// The next token, consuming it: empties the buffer, or scans when
    /// the buffer is empty.
    fn advance(&mut self) -> (t: Token)
        requires
            old(self).wf(),
        ensures
            final(self).wf(),
            final(self).text() == old(self).text(),
            final(self).spec_file() == old(self).spec_file(),
            final(self).pos() == spec_token(old(self).text(), old(self).pos()).end,
            0 <= final(self).pos() <= final(self).text().len(),
            t.spec_kind() == spec_token(old(self).text(), old(self).pos()).kind,
            t.spec_span() == spec_token_span(old(self).text(), old(self).pos()),
    {
        proof {
            self.lemma_wf();
            lemma_spec_token_range(self.text(), self.pos());
        }
        match self.peeked {
            Some(t) => {
                self.peeked = None;
                t
            },
            None => self.tokenizer.token(),
        }
    }
}

/// The recursive-descent parser over one source file.
pub struct Parser<'a> {
    tokens: TokenPeeker<'a>,
}

impl<'a> Parser<'a> {
    /// The text being parsed, as its character sequence.
    pub closed spec fn text(self) -> Seq<char> {
        self.tokens.text()
    }

    /// The stream position, as a character index: every token before
    /// it is consumed, none after it is.
    pub closed spec fn pos(self) -> int {
        self.tokens.pos()
    }

    /// The file being parsed.
    pub closed spec fn spec_file(self) -> SourceFile {
        self.tokens.spec_file()
    }

    /// The lookahead buffer and the tokenizer below it are consistent.
    pub closed spec fn wf(self) -> bool {
        self.tokens.wf()
    }

    /// A well-formed parser's position sits inside its text.
    pub proof fn lemma_wf(self)
        requires
            self.wf(),
        ensures
            0 <= self.pos() <= self.text().len(),
    {
        self.tokens.lemma_wf();
    }

    /// Builds a parser at the start of `file`'s text.
    pub fn new(file: &'a SourceFile) -> (p: Parser<'a>)
        ensures
            p.wf(),
            p.pos() == 0,
            p.spec_file() == *file,
            p.text() == file.spec_text(),
    {
        Parser { tokens: TokenPeeker::new(file) }
    }

    /// Consumes one token. When its kind is `tt`, hands it back; else
    /// reports it, already consumed, as unexpected, naming `tt` as the
    /// one acceptable kind.
    pub fn expect(&mut self, tt: TokenType) -> (r: Result<Token, ParseError>)
        requires
            old(self).wf(),
        ensures
            final(self).wf(),
            final(self).text() == old(self).text(),
            final(self).spec_file() == old(self).spec_file(),
            final(self).pos() == spec_token(old(self).text(), old(self).pos()).end,
            0 <= final(self).pos() <= final(self).text().len(),
            match r {
                Ok(t) => {
                    &&& spec_token(old(self).text(), old(self).pos()).kind == tt
                    &&& t.spec_kind() == tt
                    &&& t.spec_span() == spec_token_span(old(self).text(), old(self).pos())
                },
                Err(e) => {
                    &&& spec_token(old(self).text(), old(self).pos()).kind != tt
                    &&& matches_err(
                        Parsed::<()>::Fail { expected: seq![tt], at: old(self).pos() },
                        e,
                        old(self).text(),
                        old(self).spec_file(),
                    )
                },
            },
    {
        let tok = self.tokens.advance();
        if tok.tok_type() == tt {
            Ok(tok)
        } else {
            let mut expected_any: Vec<TokenType> = Vec::new();
            expected_any.push(tt);
            proof {
                assert(expected_any@ =~= seq![tt]);
            }
            Err(
                ParseError::UnexpectedToken {
                    source_id: self.tokens.file().id(),
                    expected_any,
                    found: tok,
                },
            )
        }
    }

    /// Peeks at the next token: when its kind is `tt`, consumes it and
    /// returns true; otherwise consumes nothing, leaving the stream
    /// position exactly where it was, and returns false.
    pub fn consume(&mut self, tt: TokenType) -> (r: bool)
        requires
            old(self).wf(),
        ensures
            final(self).wf(),
            final(self).text() == old(self).text(),
            final(self).spec_file() == old(self).spec_file(),
            0 <= final(self).pos() <= final(self).text().len(),
            r == (spec_token(old(self).text(), old(self).pos()).kind == tt),
            r ==> final(self).pos() == spec_token(old(self).text(), old(self).pos()).end,
            !r ==> final(self).pos() == old(self).pos(),
    {
        let tok = self.tokens.peek();
        if tok.tok_type() == tt {
            self.tokens.advance();
            true
        } else {
            false
        }
    }

    /// Returns the exact source substring under the byte span `span`,
    /// which must fall on character boundaries of this file's text.
    pub fn sourced(&self, span: Span) -> (r: &str)
        requires
            self.wf(),
            char_boundary(self.text(), span.begin as int),
            char_boundary(self.text(), span.end as int),
            span.begin <= span.end,
        ensures
            r@ == self.text().subrange(
                char_index(self.text(), span.begin as int),
                char_index(self.text(), span.end as int),
            ),
    {
        span_text(self.tokens.file().text(), span)
    }

    /// Materializes the text under a token that was scanned at
    /// position `p`, as an owned identifier node.
    fn take_text(&self, tok: &Token, Ghost(p): Ghost<int>) -> (r: Ident)
        requires
            self.wf(),
            0 <= p <= self.text().len(),
            tok.spec_span() == spec_token_span(self.text(), p),
        ensures
            r@ == token_text(self.text(), p),
    {
        proof {
            self.tokens.tokenizer.lemma_byte_len_bound();
            lemma_spec_token_range(self.text(), p);
            let st = spec_token(self.text(), p);
            lemma_byte_at_mono(self.text(), st.begin, st.end);
            lemma_byte_at_mono(self.text(), st.end, self.text().len() as int);
            crate::tokenize::lemma_byte_at_end(self.text());
            lemma_char_index_of(self.text(), st.begin);
            lemma_char_index_of(self.text(), st.end);
        }
        let sp = *tok.span();
        let slice = span_text(self.tokens.file().text(), sp);
        Ident(String::from_str(slice))
    }

    /// Parses one block parameter, `Ident ':' Type`.
    pub fn block_param(&mut self) -> (r: Result<BlockParameter, ParseError>)
        requires
            old(self).wf(),
        ensures
            final(self).wf(),
            final(self).text() == old(self).text(),
            final(self).spec_file() == old(self).spec_file(),
            0 <= final(self).pos() <= final(self).text().len(),
            old(self).pos() <= final(self).pos(),
            match r {
                Ok(param) => sp_param(old(self).text(), old(self).pos()) == (Parsed::Done {
                    v: param@,
                    next: final(self).pos(),
                }),
                Err(e) => matches_err(
                    sp_param(old(self).text(), old(self).pos()),
                    e,
                    old(self).text(),
                    old(self).spec_file(),
                ),
            },
    {
        proof {
            self.lemma_wf();
        }
        let ghost s = self.text();
        let ghost p0 = self.pos();
        proof {
            lemma_spec_token_range(s, p0);
        }
        let name_tok = match self.expect(TokenType::Ident) {
            Ok(t) => t,
            Err(e) => {
                return Err(e);
            },
        };
        let name = self.take_text(&name_tok, Ghost(p0));
        let ghost p1 = self.pos();
        proof {
            lemma_spec_token_range(s, p1);
        }
        match self.expect(TokenType::Colon) {
            Ok(_) => (),
            Err(e) => {
                return Err(e);
            },
        };
        let ghost p2 = self.pos();
        proof {
            lemma_spec_token_range(s, p2);
        }
        let ty_tok = match self.expect(TokenType::Ident) {
            Ok(t) => t,
            Err(e) => {
                return Err(e);
            },
        };
        let param_ty = self.take_text(&ty_tok, Ghost(p2));
        Ok(BlockParameter { name, param_ty })
    }

    /// Parses `ParamList? ')'` from just past the opening parenthesis,
    /// consuming the closing parenthesis.
    fn parse_param_list(&mut self) -> (r: Result<Vec<BlockParameter>, ParseError>)
        requires
            old(self).wf(),
        ensures
            final(self).wf(),
            final(self).text() == old(self).text(),
            final(self).spec_file() == old(self).spec_file(),
            0 <= final(self).pos() <= final(self).text().len(),
            match r {
                Ok(params) => sp_param_list(old(self).text(), old(self).pos()) == (Parsed::Done {
                    v: params_view(params@),
                    next: final(self).pos(),
                }),
                Err(e) => matches_err(
                    sp_param_list(old(self).text(), old(self).pos()),
                    e,
                    old(self).text(),
                    old(self).spec_file(),
                ),
            },
    {
        proof {
            self.lemma_wf();
        }
        let ghost s = self.text();
        let ghost pl = self.pos();
        proof {
            lemma_spec_token_range(s, pl);
        }
        let first = self.tokens.peek();
        if first.tok_type() == TokenType::RParen {
            self.tokens.advance();
            let params: Vec<BlockParameter> = Vec::new();
            proof {
                assert(params_view(params@) =~= Seq::<SpecParam>::empty());
            }
            Ok(params)
        } else if first.tok_type() == TokenType::Ident {
            let mut params: Vec<BlockParameter> = Vec::new();
            proof {
                match sp_params_loop(s, pl) {
                    Parsed::Done { v: rest, next } => {
                        assert(params_view(params@) + rest =~= rest);
                    },
                    Parsed::Fail { .. } => {},
                }
            }
            loop
                invariant_except_break
                    match sp_params_loop(s, self.pos()) {
                        Parsed::Done { v: rest, next } => sp_param_list(s, pl) == (Parsed::Done {
                            v: params_view(params@) + rest,
                            next,
                        }),
                        Parsed::Fail { expected, at } => sp_param_list(s, pl) == (Parsed::Fail::<
                            Seq<SpecParam>,
                        > { expected, at }),
                    },
                invariant
                    self.wf(),
                    self.text() == s,
                    s == old(self).text(),
                    pl == old(self).pos(),
                    0 <= pl <= s.len(),
                    self.spec_file() == old(self).spec_file(),
                    0 <= self.pos() <= s.len(),
                ensures
                    self.wf(),
                    self.text() == s,
                    self.spec_file() == old(self).spec_file(),
                    0 <= self.pos() <= s.len(),
                    sp_param_list(s, pl) == (Parsed::Done {
                        v: params_view(params@),
                        next: self.pos(),
                    }),
                decreases s.len() - self.pos(),
            {
                let ghost p_it = self.pos();
                let ghost params_pre = params@;
                let param = match self.block_param() {
                    Ok(p) => p,
                    Err(e) => {
                        return Err(e);
                    },
                };
                let ghost pv = param@;
                proof {
                    lemma_params_view_push(params_pre, param);
                    lemma_sp_param_next(s, p_it);
                }
                params.push(param);
                let ghost q = self.pos();
                proof {
                    lemma_spec_token_range(s, q);
                    assert(params_view(params_pre).push(pv) =~= params_view(params_pre)
                        + seq![pv]);
                }
                let end = self.tokens.advance();
                if end.tok_type() == TokenType::RParen {
                    proof {
                        assert(sp_param_list(s, pl) == (Parsed::Done {
                            v: params_view(params@),
                            next: self.pos(),
                        }));
                    }
                    break ;
                } else if end.tok_type() == TokenType::Comma {
                    proof {
                        match sp_params_loop(s, self.pos()) {
                            Parsed::Done { v: rest, next } => {
                                assert(params_view(params_pre) + (seq![pv] + rest) =~= params_view(
                                    params@,
                                ) + rest);
                            },
                            Parsed::Fail { .. } => {},
                        }
                    }
                } else {
                    let mut expected_any: Vec<TokenType> = Vec::new();
                    expected_any.push(TokenType::RParen);
                    expected_any.push(TokenType::Comma);
                    proof {
                        assert(expected_any@ =~= seq![TokenType::RParen, TokenType::Comma]);
                    }
                    return Err(
                        ParseError::UnexpectedToken {
                            source_id: self.tokens.file().id(),
                            expected_any,
                            found: end,
                        },
                    );
                }
            }
            Ok(params)
        } else {
            let t = self.tokens.advance();
            let mut expected_any: Vec<TokenType> = Vec::new();
            expected_any.push(TokenType::RParen);
            expected_any.push(TokenType::Ident);
            proof {
                assert(expected_any@ =~= seq![TokenType::RParen, TokenType::Ident]);
            }
            Err(
                ParseError::UnexpectedToken {
                    source_id: self.tokens.file().id(),
                    expected_any,
                    found: t,
                },
            )
        }
    }

    /// Parses `Type (',' Type)* '>'` from just past the opening angle
    /// bracket, consuming the closing angle bracket.
    fn parse_type_args(&mut self) -> (r: Result<Vec<Ident>, ParseError>)
        requires
            old(self).wf(),
        ensures
            final(self).wf(),
            final(self).text() == old(self).text(),
            final(self).spec_file() == old(self).spec_file(),
            0 <= final(self).pos() <= final(self).text().len(),
            match r {
                Ok(args) => sp_type_args_loop(old(self).text(), old(self).pos()) == (Parsed::Done {
                    v: idents_view(args@),
                    next: final(self).pos(),
                }),
                Err(e) => matches_err(
                    sp_type_args_loop(old(self).text(), old(self).pos()),
                    e,
                    old(self).text(),
                    old(self).spec_file(),
                ),
            },
    {
        proof {
            self.lemma_wf();
        }
        let ghost s = self.text();
        let ghost pl = self.pos();
        let mut args: Vec<Ident> = Vec::new();
        proof {
            match sp_type_args_loop(s, pl) {
                Parsed::Done { v: rest, next } => {
                    assert(idents_view(args@) + rest =~= rest);
                },
                Parsed::Fail { .. } => {},
            }
        }
        loop
            invariant_except_break
                match sp_type_args_loop(s, self.pos()) {
                    Parsed::Done { v: rest, next } => sp_type_args_loop(s, pl) == (Parsed::Done {
                        v: idents_view(args@) + rest,
                        next,
                    }),
                    Parsed::Fail { expected, at } => sp_type_args_loop(s, pl) == (Parsed::Fail::<
                        Seq<Seq<char>>,
                    > { expected, at }),
                },
            invariant
                self.wf(),
                self.text() == s,
                s == old(self).text(),
                pl == old(self).pos(),
                0 <= pl <= s.len(),
                self.spec_file() == old(self).spec_file(),
                0 <= self.pos() <= s.len(),
            ensures
                self.wf(),
                self.text() == s,
                self.spec_file() == old(self).spec_file(),
                0 <= self.pos() <= s.len(),
                sp_type_args_loop(s, pl) == (Parsed::Done {
                    v: idents_view(args@),
                    next: self.pos(),
                }),
            decreases s.len() - self.pos(),
        {
            let ghost p_it = self.pos();
            let ghost args_pre = args@;
            proof {
                lemma_spec_token_range(s, p_it);
            }
            let ty_tok = match self.expect(TokenType::Ident) {
                Ok(t) => t,
                Err(e) => {
                    return Err(e);
                },
            };
            let ty = self.take_text(&ty_tok, Ghost(p_it));
            let ghost tv = ty@;
            proof {
                lemma_idents_view_push(args_pre, ty);
            }
            args.push(ty);
            let ghost q = self.pos();
            proof {
                lemma_spec_token_range(s, q);
                assert(idents_view(args_pre).push(tv) =~= idents_view(args_pre) + seq![tv]);
            }
            let end = self.tokens.advance();
            if end.tok_type() == TokenType::RAngle {
                proof {
                    assert(sp_type_args_loop(s, pl) == (Parsed::Done {
                        v: idents_view(args@),
                        next: self.pos(),
                    }));
                }
                break ;
            } else if end.tok_type() == TokenType::Comma {
                proof {
                    match sp_type_args_loop(s, self.pos()) {
                        Parsed::Done { v: rest, next } => {
                            assert(idents_view(args_pre) + (seq![tv] + rest) =~= idents_view(args@)
                                + rest);
                        },
                        Parsed::Fail { .. } => {},
                    }
                }
            } else {
                let mut expected_any: Vec<TokenType> = Vec::new();
                expected_any.push(TokenType::RAngle);
                expected_any.push(TokenType::Comma);
                proof {
                    assert(expected_any@ =~= seq![TokenType::RAngle, TokenType::Comma]);
                }
                return Err(
                    ParseError::UnexpectedToken {
                        source_id: self.tokens.file().id(),
                        expected_any,
                        found: end,
                    },
                );
            }
        }
        Ok(args)
    }

    /// Parses `OperandList ::= Ident (',' Ident)*` from the start of
    /// the first operand. The list ends, consuming nothing more, at
    /// the first token that is not a comma.
    fn parse_operands(&mut self) -> (r: Result<Vec<Ident>, ParseError>)
        requires
            old(self).wf(),
        ensures
            final(self).wf(),
            final(self).text() == old(self).text(),
            final(self).spec_file() == old(self).spec_file(),
            0 <= final(self).pos() <= final(self).text().len(),
            match r {
                Ok(operands) => sp_operand_list(old(self).text(), old(self).pos()) == (Parsed::Done {
                    v: idents_view(operands@),
                    next: final(self).pos(),
                }),
                Err(e) => matches_err(
                    sp_operand_list(old(self).text(), old(self).pos()),
                    e,
                    old(self).text(),
                    old(self).spec_file(),
                ),
            },
    {
        proof {
            self.lemma_wf();
        }
        let ghost s = self.text();
        let ghost p0 = self.pos();
        proof {
            lemma_spec_token_range(s, p0);
        }
        let o1 = match self.expect(TokenType::Ident) {
            Ok(t) => t,
            Err(e) => {
                return Err(e);
            },
        };
        let first = self.take_text(&o1, Ghost(p0));
        let ghost fv = first@;
        let mut operands: Vec<Ident> = Vec::new();
        operands.push(first);
        proof {
            assert(idents_view(operands@) =~= seq![fv]);
            match sp_operands_more(s, self.pos()) {
                Parsed::Done { v: rest, next } => {
                    assert(seq![fv] + rest =~= idents_view(operands@) + rest);
                },
                Parsed::Fail { .. } => {},
            }
        }
        loop
            invariant
                self.wf(),
                self.text() == s,
                s == old(self).text(),
                p0 == old(self).pos(),
                0 <= p0 <= s.len(),
                self.spec_file() == old(self).spec_file(),
                0 <= self.pos() <= s.len(),
                match sp_operands_more(s, self.pos()) {
                    Parsed::Done { v: rest, next } => sp_operand_list(s, p0) == (Parsed::Done {
                        v: idents_view(operands@) + rest,
                        next,
                    }),
                    Parsed::Fail { expected, at } => sp_operand_list(s, p0) == (Parsed::Fail::<
                        Seq<Seq<char>>,
                    > { expected, at }),
                },
            ensures
                self.wf(),
                self.text() == s,
                self.spec_file() == old(self).spec_file(),
                0 <= self.pos() <= s.len(),
                sp_operand_list(s, p0) == (Parsed::Done {
                    v: idents_view(operands@),
                    next: self.pos(),
                }),
            decreases s.len() - self.pos(),
        {
            let ghost p_it = self.pos();
            let ghost operands_pre = operands@;
            proof {
                lemma_spec_token_range(s, p_it);
                match sp_operands_more(s, p_it) {
                    Parsed::Done { v: rest, next } => {
                        if spec_token(s, p_it).kind != TokenType::Comma {
                            assert(idents_view(operands@) + rest =~= idents_view(operands@));
                        }
                    },
                    Parsed::Fail { .. } => {},
                }
            }
            if !self.consume(TokenType::Comma) {
                proof {
                    match sp_operands_more(s, p_it) {
                        Parsed::Done { v: rest, next } => {
                            assert(idents_view(operands@) + rest =~= idents_view(operands@));
                        },
                        Parsed::Fail { .. } => {},
                    }
                    assert(sp_operand_list(s, p0) == (Parsed::Done {
                        v: idents_view(operands@),
                        next: self.pos(),
                    }));
                }
                break ;
            }
            let ghost pi = self.pos();
            proof {
                lemma_spec_token_range(s, pi);
            }
            let tok = match self.expect(TokenType::Ident) {
                Ok(t) => t,
                Err(e) => {
                    return Err(e);
                },
            };
            let o = self.take_text(&tok, Ghost(pi));
            let ghost ov = o@;
            proof {
                lemma_idents_view_push(operands_pre, o);
            }
            operands.push(o);
            proof {
                assert(idents_view(operands_pre).push(ov) =~= idents_view(operands_pre)
                    + seq![ov]);
                match sp_operands_more(s, self.pos()) {
                    Parsed::Done { v: rest, next } => {
                        assert(idents_view(operands_pre) + (seq![ov] + rest) =~= idents_view(
                            operands@,
                        ) + rest);
                    },
                    Parsed::Fail { .. } => {},
                }
            }
        }
        Ok(operands)
    }

    /// Parses the tail of `AssignOp ::= Ident '=' Ident TypeArgs?
    /// OperandList`, the result identifier scanned at `p` having been
    /// consumed already.
    fn parse_assign(&mut self, result: Ident, Ghost(p): Ghost<int>) -> (r: Result<
        NodeOp,
        ParseError,
    >)
        requires
            old(self).wf(),
            0 <= p <= old(self).text().len(),
            old(self).pos() == spec_token(old(self).text(), p).end,
            result@ == token_text(old(self).text(), p),
        ensures
            final(self).wf(),
            final(self).text() == old(self).text(),
            final(self).spec_file() == old(self).spec_file(),
            0 <= final(self).pos() <= final(self).text().len(),
            match r {
                Ok(op) => sp_assign(old(self).text(), p) == (Parsed::Done {
                    v: op@,
                    next: final(self).pos(),
                }),
                Err(e) => matches_err(
                    sp_assign(old(self).text(), p),
                    e,
                    old(self).text(),
                    old(self).spec_file(),
                ),
            },
    {
        proof {
            self.lemma_wf();
        }
        let ghost s = self.text();
        match self.expect(TokenType::Equal) {
            Ok(_) => (),
            Err(e) => {
                return Err(e);
            },
        };
        let ghost pe = self.pos();
        proof {
            lemma_spec_token_range(s, pe);
        }
        let op_tok = match self.expect(TokenType::Ident) {
            Ok(t) => t,
            Err(e) => {
                return Err(e);
            },
        };
        let op_name = self.take_text(&op_tok, Ghost(pe));
        let mut type_args: Vec<Ident> = Vec::new();
        let ghost p_on_end = self.pos();
        proof {
            lemma_spec_token_range(s, p_on_end);
            assert(idents_view(type_args@) =~= Seq::<Seq<char>>::empty());
        }
        if self.consume(TokenType::LAngle) {
            type_args = match self.parse_type_args() {
                Ok(v) => v,
                Err(e) => {
                    return Err(e);
                },
            };
        }
        let operands = match self.parse_operands() {
            Ok(v) => v,
            Err(e) => {
                return Err(e);
            },
        };
        Ok(NodeOp::Assign { result, op_name, type_args, operands })
    }

    /// Parses `Op* '}'` from an operation boundary inside the block
    /// body, consuming the closing brace.
    fn parse_ops(&mut self) -> (r: Result<Vec<NodeOp>, ParseError>)
        requires
            old(self).wf(),
        ensures
            final(self).wf(),
            final(self).text() == old(self).text(),
            final(self).spec_file() == old(self).spec_file(),
            0 <= final(self).pos() <= final(self).text().len(),
            match r {
                Ok(ops) => sp_ops(old(self).text(), old(self).pos()) == (Parsed::Done {
                    v: ops_view(ops@),
                    next: final(self).pos(),
                }),
                Err(e) => matches_err(
                    sp_ops(old(self).text(), old(self).pos()),
                    e,
                    old(self).text(),
                    old(self).spec_file(),
                ),
            },
    {
        proof {
            self.lemma_wf();
        }
        let ghost s = self.text();
        let ghost p0 = self.pos();
        let mut ops: Vec<NodeOp> = Vec::new();
        proof {
            match sp_ops(s, p0) {
                Parsed::Done { v: rest, next } => {
                    assert(ops_view(ops@) + rest =~= rest);
                },
                Parsed::Fail { .. } => {},
            }
        }
        loop
            invariant_except_break
                match sp_ops(s, self.pos()) {
                    Parsed::Done { v: rest, next } => sp_ops(s, p0) == (Parsed::Done {
                        v: ops_view(ops@) + rest,
                        next,
                    }),
                    Parsed::Fail { expected, at } => sp_ops(s, p0) == (Parsed::Fail::<
                        Seq<SpecOp>,
                    > { expected, at }),
                },
            invariant
                self.wf(),
                self.text() == s,
                s == old(self).text(),
                p0 == old(self).pos(),
                0 <= p0 <= s.len(),
                self.spec_file() == old(self).spec_file(),
                0 <= self.pos() <= s.len(),
            ensures
                self.wf(),
                self.text() == s,
                self.spec_file() == old(self).spec_file(),
                0 <= self.pos() <= s.len(),
                sp_ops(s, p0) == (Parsed::Done { v: ops_view(ops@), next: self.pos() }),
            decreases s.len() - self.pos(),
        {
            let ghost p_it = self.pos();
            let ghost ops_pre = ops@;
            proof {
                lemma_spec_token_range(s, p_it);
            }
            let t = self.tokens.peek();
            if t.tok_type() == TokenType::Close {
                self.tokens.advance();
                proof {
                    match sp_ops(s, p_it) {
                        Parsed::Done { v: rest, next } => {
                            assert(ops_view(ops@) + rest =~= ops_view(ops@));
                        },
                        Parsed::Fail { .. } => {},
                    }
                    assert(sp_ops(s, p0) == (Parsed::Done {
                        v: ops_view(ops@),
                        next: self.pos(),
                    }));
                }
                break ;
            } else if t.tok_type() == TokenType::Ident {
                let tok = self.tokens.advance();
                let name = self.take_text(&tok, Ghost(p_it));
                let kw = String::from_str("return");
                let is_ret = name.0 == kw;
                proof {
                    reveal_strlit("return");
                    assert("return"@ =~= spec_kw_return());
                }
                let op = if is_ret {
                    let ghost pv = self.pos();
                    proof {
                        lemma_spec_token_range(s, pv);
                    }
                    let vtok = match self.expect(TokenType::Ident) {
                        Ok(x) => x,
                        Err(e) => {
                            return Err(e);
                        },
                    };
                    let value = self.take_text(&vtok, Ghost(pv));
                    NodeOp::Return { value }
                } else {
                    match self.parse_assign(name, Ghost(p_it)) {
                        Ok(op) => op,
                        Err(e) => {
                            return Err(e);
                        },
                    }
                };
                let ghost opv = op@;
                proof {
                    lemma_ops_view_push(ops_pre, op);
                }
                ops.push(op);
                proof {
                    lemma_sp_assign_next(s, p_it);
                    assert(ops_view(ops_pre).push(opv) =~= ops_view(ops_pre) + seq![opv]);
                    match sp_ops(s, self.pos()) {
                        Parsed::Done { v: rest, next } => {
                            assert(ops_view(ops_pre) + (seq![opv] + rest) =~= ops_view(ops@)
                                + rest);
                        },
                        Parsed::Fail { .. } => {},
                    }
                }
            } else {
                let tok = self.tokens.advance();
                let mut expected_any: Vec<TokenType> = Vec::new();
                expected_any.push(TokenType::Close);
                expected_any.push(TokenType::Ident);
                proof {
                    assert(expected_any@ =~= seq![TokenType::Close, TokenType::Ident]);
                }
                return Err(
                    ParseError::UnexpectedToken {
                        source_id: self.tokens.file().id(),
                        expected_any,
                        found: tok,
                    },
                );
            }
        }
        Ok(ops)
    }

    /// The parse entry point: parses one whole block. Returns the tree
    /// on success; on the first structural error, reports it and
    /// returns no partial tree.
    pub fn node_block(&mut self) -> (r: Result<NodeBlock, ParseError>)
        requires
            old(self).wf(),
        ensures
            final(self).wf(),
            final(self).text() == old(self).text(),
            final(self).spec_file() == old(self).spec_file(),
            0 <= final(self).pos() <= final(self).text().len(),
            match r {
                Ok(b) => sp_block(old(self).text(), old(self).pos()) == (Parsed::Done {
                    v: b@,
                    next: final(self).pos(),
                }),
                Err(e) => matches_err(
                    sp_block(old(self).text(), old(self).pos()),
                    e,
                    old(self).text(),
                    old(self).spec_file(),
                ),
            },
    {
        proof {
            self.lemma_wf();
        }
        let ghost s = self.text();
        let ghost p0 = self.pos();
        proof {
            lemma_spec_token_range(s, p0);
        }
        match self.expect(TokenType::KWBlock) {
            Ok(_) => (),
            Err(e) => {
                return Err(e);
            },
        };
        let ghost pn = self.pos();
        proof {
            lemma_spec_token_range(s, pn);
        }
        let name_tok = match self.expect(TokenType::Ident) {
            Ok(t) => t,
            Err(e) => {
                return Err(e);
            },
        };
        let name = self.take_text(&name_tok, Ghost(pn));
        match self.expect(TokenType::LParen) {
            Ok(_) => (),
            Err(e) => {
                return Err(e);
            },
        };
        let parameters = match self.parse_param_list() {
            Ok(v) => v,
            Err(e) => {
                return Err(e);
            },
        };
        match self.expect(TokenType::Colon) {
            Ok(_) => (),
            Err(e) => {
                return Err(e);
            },
        };
        let ghost pr = self.pos();
        proof {
            lemma_spec_token_range(s, pr);
        }
        let rt_tok = match self.expect(TokenType::Ident) {
            Ok(t) => t,
            Err(e) => {
                return Err(e);
            },
        };
        let return_type = self.take_text(&rt_tok, Ghost(pr));
        match self.expect(TokenType::Open) {
            Ok(_) => (),
            Err(e) => {
                return Err(e);
            },
        };
        let ops = match self.parse_ops() {
            Ok(v) => v,
            Err(e) => {
                return Err(e);
            },
        };
        Ok(NodeBlock { name, parameters, return_type, ops })
    }
}

} // verus!
