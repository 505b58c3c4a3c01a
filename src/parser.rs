use vstd::prelude::*;
use crate::lexer::{Lexer, Token, TokenModel, TokenType, lemma_tokens_from_next, tokens_from};
use crate::codegen::{emittable, lemma_parsed_file_emittable};
use crate::pair::Pair;

verus! {

/// A type name, with at most one level of generic argument (`Array<string>`).
#[derive(Debug)]
pub struct Type {
    pub name: String,
    pub subtype: Option<Box<Type>>,
}

/// A copy of a type, generic arguments included.
fn copy_type(t: &Type) -> (r: Type)
    ensures
        r == *t,
    decreases t,
{
    let subtype = match &t.subtype {
        Some(b) => Some(Box::new(copy_type(b))),
        None => None,
    };
    Type { name: t.name.clone(), subtype }
}

impl Clone for Type {
    fn clone(&self) -> (r: Self)
        ensures
            r == *self,
    {
        copy_type(self)
    }
}

/// The syntax tree. A `File` holds function definitions; a definition's body
/// holds `Return` statements, whose value, if any, is a `Value`.
#[derive(Debug)]
pub enum AST {
    File { child: Vec<AST>, filename: String },
    Return { value: Option<Box<AST>> },
    Value { value: String },
    FunctionDefinition {
        name: String,
        args: Vec<Pair<String, Type>>,
        body: Vec<AST>,
        return_type: String,
    },
}

/// The grammar rule that a structural error breaks.
#[derive(Debug, Clone, Copy, PartialEq, Eq, Structural)]
pub enum ErrorKind {
    /// A declaration starts with something other than an identifier.
    UnexpectedToken,
    /// No `:` after a declaration's name.
    ExpectedColon,
    /// A declaration other than `func`.
    UnsupportedDeclaration,
    /// No `(` after `func`.
    ExpectedLParen,
    /// A parameter does not start with its name.
    ExpectedParamName,
    /// No `:` after a parameter's name.
    ExpectedParamColon,
    /// A type is not a name.
    ExpectedTypeName,
    /// A generic argument that is itself generic.
    NestedGeneric,
    /// A generic argument not closed by `>`.
    ExpectedRAngle,
    /// A parameter followed by neither `,` nor `)`.
    ExpectedComma,
    /// No type name after the `:` of a return type.
    ExpectedReturnType,
    /// No `{` where a body begins.
    ExpectedLBrace,
    /// The input ends inside a body.
    UnclosedFunction,
    /// A statement that does not start with `return`.
    UnsupportedStatement,
    /// A bare `return;` in a function that returns a value.
    MissingReturnValue,
    /// `return` with a value in a `void` function.
    UnexpectedReturnValue,
    /// `return` followed by neither `;` nor a literal or name.
    ExpectedReturnValue,
    /// No `;` after a returned value.
    ExpectedSemicolon,
}

/// A structural error: what rule was broken, and the token where it was seen.
#[derive(Debug)]
pub struct ParseError {
    pub kind: ErrorKind,
    pub line: i32,
    pub char_pos: i32,
    pub found: String,
}

pub struct ErrorModel {
    pub kind: ErrorKind,
    pub line: int,
    pub col: int,
    pub found: Seq<char>,
}

impl View for ParseError {
    type V = ErrorModel;

    open spec fn view(&self) -> ErrorModel {
        ErrorModel {
            kind: self.kind,
            line: self.line as int,
            col: self.char_pos as int,
            found: self.found@,
        }
    }
}

pub struct TypeModel {
    pub name: Seq<char>,
    pub sub: Option<Seq<char>>,
}

pub struct ParamModel {
    pub name: Seq<char>,
    pub ty: TypeModel,
}

/// A function declaration; each statement of its body is a `return`, with the
/// text of its value if it has one.
pub struct FunctionModel {
    pub name: Seq<char>,
    pub params: Seq<ParamModel>,
    pub ret: Seq<char>,
    pub body: Seq<Option<Seq<char>>>,
}

/// The `k`-th token of a stream; past its end the stream is `EOF`.
pub open spec fn tok(ts: Seq<TokenModel>, k: int) -> TokenModel {
    if 0 <= k < ts.len() {
        ts[k]
    } else {
        TokenModel { kind: TokenType::EOF, ..ts.last() }
    }
}

pub open spec fn err_at(kind: ErrorKind, t: TokenModel) -> ErrorModel {
    ErrorModel { kind, line: t.line, col: t.col, found: t.text }
}

/// A type at `k`: a name, or a name with one generic argument. On success,
/// also the index of the token after it.
pub open spec fn p_type(ts: Seq<TokenModel>, k: int) -> Result<(TypeModel, int), ErrorModel> {
    let t = tok(ts, k);
    if t.kind != TokenType::Identifier {
        Err(err_at(ErrorKind::ExpectedTypeName, t))
    } else if tok(ts, k + 1).kind != TokenType::LAngle {
        Ok((TypeModel { name: t.text, sub: None }, k + 1))
    } else {
        let inner = tok(ts, k + 2);
        let close = tok(ts, k + 3);
        if inner.kind != TokenType::Identifier {
            Err(err_at(ErrorKind::ExpectedTypeName, inner))
        } else if close.kind == TokenType::LAngle {
            Err(err_at(ErrorKind::NestedGeneric, close))
        } else if close.kind != TokenType::RAngle {
            Err(err_at(ErrorKind::ExpectedRAngle, close))
        } else {
            Ok((TypeModel { name: t.text, sub: Some(inner.text) }, k + 4))
        }
    }
}

/// A parameter at `k`: `name : type`.
pub open spec fn p_param(ts: Seq<TokenModel>, k: int) -> Result<(ParamModel, int), ErrorModel> {
    let name = tok(ts, k);
    let colon = tok(ts, k + 1);
    if name.kind != TokenType::Identifier {
        Err(err_at(ErrorKind::ExpectedParamName, name))
    } else if colon.kind != TokenType::Colon {
        Err(err_at(ErrorKind::ExpectedParamColon, colon))
    } else {
        match p_type(ts, k + 2) {
            Ok((ty, k2)) => Ok((ParamModel { name: name.text, ty }, k2)),
            Err(e) => Err(e),
        }
    }
}

/// Parameters separated by commas from `k` up to and including `)`, after
/// those in `acc`.
pub open spec fn p_params(ts: Seq<TokenModel>, k: int, acc: Seq<ParamModel>) -> Result<
    (Seq<ParamModel>, int),
    ErrorModel,
>
    decreases ts.len() - k,
{
    match p_param(ts, k) {
        Ok((p, k1)) => {
            let t = tok(ts, k1);
            if t.kind == TokenType::RParen {
                Ok((acc.push(p), k1 + 1))
            } else if t.kind == TokenType::Comma {
                p_params(ts, k1 + 1, acc.push(p))
            } else {
                Err(err_at(ErrorKind::ExpectedComma, t))
            }
        },
        Err(e) => Err(e),
    }
}

/// A parameter list after its `(`: empty, or parameters up to `)`.
pub open spec fn p_param_list(ts: Seq<TokenModel>, k: int) -> Result<
    (Seq<ParamModel>, int),
    ErrorModel,
> {
    if tok(ts, k).kind == TokenType::RParen {
        Ok((Seq::empty(), k + 1))
    } else {
        p_params(ts, k, Seq::empty())
    }
}

/// An optional `: name` return type; `void` where there is none.
pub open spec fn p_return_type(ts: Seq<TokenModel>, k: int) -> Result<(Seq<char>, int), ErrorModel> {
    if tok(ts, k).kind == TokenType::Colon {
        let r = tok(ts, k + 1);
        if r.kind != TokenType::Identifier {
            Err(err_at(ErrorKind::ExpectedReturnType, r))
        } else {
            Ok((r.text, k + 2))
        }
    } else {
        Ok(("void"@, k))
    }
}

/// The statements of a body from `k` up to and including `}`, after those in
/// `acc`, in a function whose return type is `ret`. Every statement starts
/// with `return`; any other token where a statement starts is an error.
pub open spec fn p_body(ts: Seq<TokenModel>, k: int, ret: Seq<char>, acc: Seq<Option<Seq<char>>>) -> Result<
    (Seq<Option<Seq<char>>>, int),
    ErrorModel,
>
    decreases ts.len() - k,
{
    let t = tok(ts, k);
    let v = tok(ts, k + 1);
    if t.kind == TokenType::RBrace {
        Ok((acc, k + 1))
    } else if t.kind == TokenType::EOF {
        Err(err_at(ErrorKind::UnclosedFunction, t))
    } else if t.kind != TokenType::Identifier || t.text != "return"@ {
        Err(err_at(ErrorKind::UnsupportedStatement, t))
    } else if v.kind == TokenType::Semicolon {
        if ret != "void"@ {
            Err(err_at(ErrorKind::MissingReturnValue, v))
        } else {
            p_body(ts, k + 2, ret, acc.push(None))
        }
    } else if v.kind != TokenType::Identifier && v.kind != TokenType::Number {
        Err(err_at(ErrorKind::ExpectedReturnValue, v))
    } else if ret == "void"@ {
        Err(err_at(ErrorKind::UnexpectedReturnValue, v))
    } else if tok(ts, k + 2).kind != TokenType::Semicolon {
        Err(err_at(ErrorKind::ExpectedSemicolon, tok(ts, k + 2)))
    } else {
        p_body(ts, k + 3, ret, acc.push(Some(v.text)))
    }
}

/// A function declaration whose name is the token at `k`:
/// `name : func ( params ) [: type] { body }`.
pub open spec fn p_function(ts: Seq<TokenModel>, k: int) -> Result<(FunctionModel, int), ErrorModel> {
    let name = tok(ts, k);
    let colon = tok(ts, k + 1);
    let kw = tok(ts, k + 2);
    let lp = tok(ts, k + 3);
    if colon.kind != TokenType::Colon {
        Err(err_at(ErrorKind::ExpectedColon, colon))
    } else if kw.kind != TokenType::Identifier || kw.text != "func"@ {
        Err(err_at(ErrorKind::UnsupportedDeclaration, kw))
    } else if lp.kind != TokenType::LParen {
        Err(err_at(ErrorKind::ExpectedLParen, lp))
    } else {
        match p_param_list(ts, k + 4) {
            Err(e) => Err(e),
            Ok((params, k1)) => match p_return_type(ts, k1) {
                Err(e) => Err(e),
                Ok((ret, k2)) => if tok(ts, k2).kind != TokenType::LBrace {
                    Err(err_at(ErrorKind::ExpectedLBrace, tok(ts, k2)))
                } else {
                    match p_body(ts, k2 + 1, ret, Seq::empty()) {
                        Err(e) => Err(e),
                        Ok((body, k3)) => Ok((FunctionModel { name: name.text, params, ret, body }, k3)),
                    }
                },
            },
        }
    }
}

/// Declarations from `k` up to `EOF`, after those in `acc`.
pub open spec fn p_decls(ts: Seq<TokenModel>, k: int, acc: Seq<FunctionModel>) -> Result<
    Seq<FunctionModel>,
    ErrorModel,
>
    decreases ts.len() - k,
{
    let t = tok(ts, k);
    if t.kind == TokenType::EOF || k < 0 {
        Ok(acc)
    } else if t.kind != TokenType::Identifier {
        Err(err_at(ErrorKind::UnexpectedToken, t))
    } else {
        match p_function(ts, k) {
            Err(e) => Err(e),
            Ok((f, k1)) => {
                proof {
                    lemma_function_advances(ts, k);
                }
                p_decls(ts, k1, acc.push(f))
            },
        }
    }
}

/// What `parse` yields for a token stream: the functions it declares, or the
/// first structural error.
pub open spec fn parse_tokens(ts: Seq<TokenModel>) -> Result<Seq<FunctionModel>, ErrorModel> {
    p_decls(ts, 0, Seq::empty())
}

/// `t` is the type `m`: its name, and its generic argument if any, which has
/// none of its own.
pub open spec fn type_is(t: Type, m: TypeModel) -> bool {
    &&& t.name@ == m.name
    &&& match (t.subtype, m.sub) {
        (None, None) => true,
        (Some(b), Some(n)) => b.name@ == n && b.subtype is None,
        _ => false,
    }
}

pub open spec fn params_are(v: Seq<Pair<String, Type>>, ms: Seq<ParamModel>) -> bool {
    &&& v.len() == ms.len()
    &&& forall|i: int| 0 <= i < v.len() ==> #[trigger] v[i].0@ == ms[i].name && type_is(v[i].1, ms[i].ty)
}

/// `a` is a `return` statement with the value `m`.
pub open spec fn statement_is(a: AST, m: Option<Seq<char>>) -> bool {
    match a {
        AST::Return { value } => match (value, m) {
            (None, None) => true,
            (Some(b), Some(text)) => match *b {
                AST::Value { value } => value@ == text,
                _ => false,
            },
            _ => false,
        },
        _ => false,
    }
}

pub open spec fn statements_are(v: Seq<AST>, ms: Seq<Option<Seq<char>>>) -> bool {
    &&& v.len() == ms.len()
    &&& forall|i: int| 0 <= i < v.len() ==> #[trigger] statement_is(v[i], ms[i])
}

/// `a` is the function declaration `m`.
pub open spec fn function_is(a: AST, m: FunctionModel) -> bool {
    match a {
        AST::FunctionDefinition { name, args, body, return_type } => {
            &&& name@ == m.name
            &&& params_are(args@, m.params)
            &&& return_type@ == m.ret
            &&& statements_are(body@, m.body)
        },
        _ => false,
    }
}

pub open spec fn functions_are(v: Seq<AST>, ms: Seq<FunctionModel>) -> bool {
    &&& v.len() == ms.len()
    &&& forall|i: int| 0 <= i < v.len() ==> #[trigger] function_is(v[i], ms[i])
}

/// `a` is the file `filename` that declares the functions `ms`.
pub open spec fn file_is(a: AST, filename: Seq<char>, ms: Seq<FunctionModel>) -> bool {
    match a {
        AST::File { child, filename: f } => f@ == filename && functions_are(child@, ms),
        _ => false,
    }
}

/// A file name as it stands in a symbol: each `/` and `.` becomes `_`.
pub open spec fn mangled(s: Seq<char>) -> Seq<char> {
    s.map_values(|c: char| if c == '/' || c == '.' { '_' } else { c })
}

/// The symbol of function `name` of file `filename`.
pub open spec fn symbol(filename: Seq<char>, name: Seq<char>) -> Seq<char> {
    mangled(filename) + "__"@ + name + "__"@
}

fn error(kind: ErrorKind, t: Token) -> (e: ParseError)
    ensures
        e@ == err_at(kind, t@),
{
    ParseError { kind, line: t.line, char_pos: t.char_pos, found: t.value }
}

/// Whether a string holds exactly the characters of `lit`.
fn text_is(s: &String, lit: &str) -> (r: bool)
    ensures
        r == (s@ == lit@),
{
    let a = s.as_str();
    let n = a.unicode_len();
    if n != lit.unicode_len() {
        return false;
    }
    let mut i: usize = 0;
    while i < n
        invariant
            a@ == s@,
            n == s@.len(),
            n == lit@.len(),
            i <= n,
            forall|j: int| 0 <= j < i ==> s@[j] == lit@[j],
        decreases n - i,
    {
        if a.get_char(i) != lit.get_char(i) {
            return false;
        }
        i = i + 1;
    }
    assert(s@ =~= lit@);
    true
}

/// A recursive-descent parser reading tokens from a scanner.
#[derive(Debug)]
pub struct Parser {
    lexer: Lexer,
}

impl Parser {
    pub closed spec fn wf(&self) -> bool {
        self.lexer.wf()
    }

    /// The tokens left to read, up to and including `EOF`.
    pub closed spec fn tokens(&self) -> Seq<TokenModel> {
        tokens_from(self.lexer.src(), self.lexer.state())
    }

    /// The parser has read the first `k` tokens of `ts`.
    pub closed spec fn at(&self, ts: Seq<TokenModel>, k: int) -> bool {
        &&& self.wf()
        &&& 0 <= k < ts.len()
        &&& self.tokens() == ts.subrange(k, ts.len() as int)
    }

    pub fn new(lexer: Lexer) -> (r: Parser)
        requires
            lexer.wf(),
        ensures
            r.wf(),
            r.tokens() == tokens_from(lexer.src(), lexer.state()),
    {
        Parser { lexer }
    }

    /// Reads the token at `k`; `EOF` is read again and again.
    fn advance(&mut self, Ghost(ts): Ghost<Seq<TokenModel>>, Ghost(k): Ghost<int>) -> (t: Token)
        requires
            old(self).at(ts, k),
        ensures
            t@ == tok(ts, k),
            t@.kind != TokenType::EOF ==> final(self).at(ts, k + 1),
            t@.kind == TokenType::EOF ==> final(self).at(ts, k),
    {
        proof {
            self.lexer.lemma_state_in_source();
            lemma_tokens_from_next(self.lexer.src(), self.lexer.state());
            assert(ts.subrange(k, ts.len() as int)[0] == ts[k]);
        }
        let t = self.lexer.next();
        proof {
            if t@.kind != TokenType::EOF {
                assert(ts.subrange(k + 1, ts.len() as int) =~= ts.subrange(k, ts.len() as int).drop_first());
                assert(self.tokens() =~= (seq![t@] + self.tokens()).drop_first());
            }
        }
        t
    }

    /// The token at `k`, left unread.
    fn look(&mut self, Ghost(ts): Ghost<Seq<TokenModel>>, Ghost(k): Ghost<int>) -> (t: Token)
        requires
            old(self).at(ts, k),
        ensures
            t@ == tok(ts, k),
            final(self).at(ts, k),
    {
        proof {
            self.lexer.lemma_state_in_source();
            lemma_tokens_from_next(self.lexer.src(), self.lexer.state());
            assert(ts.subrange(k, ts.len() as int)[0] == ts[k]);
        }
        self.lexer.peek()
    }

    fn parse_type(&mut self, Ghost(ts): Ghost<Seq<TokenModel>>, Ghost(k): Ghost<int>) -> (r: Result<Type, ParseError>)
        requires
            old(self).at(ts, k),
        ensures
            final(self).wf(),
            match p_type(ts, k) {
                Ok((m, k1)) => r is Ok && type_is(r->Ok_0, m) && final(self).at(ts, k1),
                Err(e) => r is Err && r->Err_0@ == e,
            },
    {
        let t = self.advance(Ghost(ts), Ghost(k));
        if t.token_type != TokenType::Identifier {
            return Err(error(ErrorKind::ExpectedTypeName, t));
        }
        let after = self.look(Ghost(ts), Ghost(k + 1));
        if after.token_type != TokenType::LAngle {
            return Ok(Type { name: t.value, subtype: None });
        }
        let _ = self.advance(Ghost(ts), Ghost(k + 1));
        let inner = self.advance(Ghost(ts), Ghost(k + 2));
        if inner.token_type != TokenType::Identifier {
            return Err(error(ErrorKind::ExpectedTypeName, inner));
        }
        let close = self.advance(Ghost(ts), Ghost(k + 3));
        if close.token_type == TokenType::LAngle {
            return Err(error(ErrorKind::NestedGeneric, close));
        }
        if close.token_type != TokenType::RAngle {
            return Err(error(ErrorKind::ExpectedRAngle, close));
        }
        Ok(Type { name: t.value, subtype: Some(Box::new(Type { name: inner.value, subtype: None })) })
    }

    fn parse_param(&mut self, Ghost(ts): Ghost<Seq<TokenModel>>, Ghost(k): Ghost<int>) -> (r: Result<Pair<String, Type>, ParseError>)
        requires
            old(self).at(ts, k),
        ensures
            final(self).wf(),
            match p_param(ts, k) {
                Ok((m, k1)) => r is Ok && r->Ok_0.0@ == m.name && type_is(r->Ok_0.1, m.ty) && final(self).at(ts, k1),
                Err(e) => r is Err && r->Err_0@ == e,
            },
    {
        let name = self.advance(Ghost(ts), Ghost(k));
        if name.token_type != TokenType::Identifier {
            return Err(error(ErrorKind::ExpectedParamName, name));
        }
        let colon = self.advance(Ghost(ts), Ghost(k + 1));
        if colon.token_type != TokenType::Colon {
            return Err(error(ErrorKind::ExpectedParamColon, colon));
        }
        match self.parse_type(Ghost(ts), Ghost(k + 2)) {
            Ok(ty) => Ok(Pair(name.value, ty)),
            Err(e) => Err(e),
        }
    }

    /// The parameters after a `(`, up to and including the `)`.
    fn parse_param_list(&mut self, Ghost(ts): Ghost<Seq<TokenModel>>, Ghost(k): Ghost<int>) -> (r: Result<Vec<Pair<String, Type>>, ParseError>)
        requires
            old(self).at(ts, k),
        ensures
            final(self).wf(),
            match p_param_list(ts, k) {
                Ok((ms, k1)) => r is Ok && params_are(r->Ok_0@, ms) && final(self).at(ts, k1),
                Err(e) => r is Err && r->Err_0@ == e,
            },
    {
        let mut args: Vec<Pair<String, Type>> = Vec::new();
        let first = self.look(Ghost(ts), Ghost(k));
        if first.token_type == TokenType::RParen {
            let _ = self.advance(Ghost(ts), Ghost(k));
            return Ok(args);
        }
        let ghost mut i = k;
        let ghost mut acc: Seq<ParamModel> = Seq::empty();
        loop
            invariant
                self.at(ts, i),
                k <= i,
                p_param_list(ts, k) == p_params(ts, i, acc),
                params_are(args@, acc),
            decreases ts.len() - i,
        {
            let arg = match self.parse_param(Ghost(ts), Ghost(i)) {
                Ok(arg) => arg,
                Err(e) => return Err(e),
            };
            let ghost (m, k1) = p_param(ts, i)->Ok_0;
            args.push(arg);
            proof {
                acc = acc.push(m);
                assert(params_are(args@, acc)) by {
                    assert forall|j: int| 0 <= j < args@.len() implies #[trigger] args@[j].0@ == acc[j].name
                        && type_is(args@[j].1, acc[j].ty) by {
                    }
                }
            }
            let sep = self.advance(Ghost(ts), Ghost(k1));
            if sep.token_type == TokenType::RParen {
                return Ok(args);
            }
            if sep.token_type != TokenType::Comma {
                return Err(error(ErrorKind::ExpectedComma, sep));
            }
            proof {
                i = k1 + 1;
            }
        }
    }

    /// The statements of a body after its `{`, up to and including the `}`.
    fn parse_body(&mut self, returns_void: bool, Ghost(ret): Ghost<Seq<char>>, Ghost(ts): Ghost<Seq<TokenModel>>, Ghost(k): Ghost<int>) -> (r: Result<Vec<AST>, ParseError>)
        requires
            old(self).at(ts, k),
            returns_void == (ret == "void"@),
        ensures
            final(self).wf(),
            match p_body(ts, k, ret, Seq::empty()) {
                Ok((ms, k1)) => r is Ok && statements_are(r->Ok_0@, ms) && final(self).at(ts, k1),
                Err(e) => r is Err && r->Err_0@ == e,
            },
    {
        let mut body: Vec<AST> = Vec::new();
        let ghost mut i = k;
        let ghost mut acc: Seq<Option<Seq<char>>> = Seq::empty();
        loop
            invariant
                self.at(ts, i),
                k <= i,
                returns_void == (ret == "void"@),
                p_body(ts, k, ret, Seq::empty()) == p_body(ts, i, ret, acc),
                statements_are(body@, acc),
            decreases ts.len() - i,
        {
            let t = self.advance(Ghost(ts), Ghost(i));
            if t.token_type == TokenType::RBrace {
                return Ok(body);
            }
            if t.token_type == TokenType::EOF {
                return Err(error(ErrorKind::UnclosedFunction, t));
            }
            if t.token_type != TokenType::Identifier || !text_is(&t.value, "return") {
                return Err(error(ErrorKind::UnsupportedStatement, t));
            }
            let v = self.advance(Ghost(ts), Ghost(i + 1));
            if v.token_type == TokenType::Semicolon {
                if !returns_void {
                    return Err(error(ErrorKind::MissingReturnValue, v));
                }
                body.push(AST::Return { value: None });
                proof {
                    acc = acc.push(None);
                    i = i + 2;
                    assert(statements_are(body@, acc)) by {
                        assert forall|j: int| 0 <= j < body@.len() implies #[trigger] statement_is(body@[j], acc[j]) by {
                        }
                    }
                }
                continue;
            }
            if v.token_type != TokenType::Identifier && v.token_type != TokenType::Number {
                return Err(error(ErrorKind::ExpectedReturnValue, v));
            }
            if returns_void {
                return Err(error(ErrorKind::UnexpectedReturnValue, v));
            }
            let semi = self.advance(Ghost(ts), Ghost(i + 2));
            if semi.token_type != TokenType::Semicolon {
                return Err(error(ErrorKind::ExpectedSemicolon, semi));
            }
            let ghost text = v.value@;
            body.push(AST::Return { value: Some(Box::new(AST::Value { value: v.value })) });
            proof {
                acc = acc.push(Some(text));
                i = i + 3;
                assert(statements_are(body@, acc)) by {
                    assert forall|j: int| 0 <= j < body@.len() implies #[trigger] statement_is(body@[j], acc[j]) by {
                    }
                }
            }
        }
    }

    /// A function declaration whose name, the token at `k`, has been read.
    fn parse_function(&mut self, name: Token, Ghost(ts): Ghost<Seq<TokenModel>>, Ghost(k): Ghost<int>) -> (r: Result<AST, ParseError>)
        requires
            old(self).at(ts, k + 1),
            name@ == tok(ts, k),
        ensures
            final(self).wf(),
            match p_function(ts, k) {
                Ok((m, k1)) => r is Ok && function_is(r->Ok_0, m) && final(self).at(ts, k1),
                Err(e) => r is Err && r->Err_0@ == e,
            },
    {
        let colon = self.advance(Ghost(ts), Ghost(k + 1));
        if colon.token_type != TokenType::Colon {
            return Err(error(ErrorKind::ExpectedColon, colon));
        }
        let kw = self.advance(Ghost(ts), Ghost(k + 2));
        if kw.token_type != TokenType::Identifier || !text_is(&kw.value, "func") {
            return Err(error(ErrorKind::UnsupportedDeclaration, kw));
        }
        let lp = self.advance(Ghost(ts), Ghost(k + 3));
        if lp.token_type != TokenType::LParen {
            return Err(error(ErrorKind::ExpectedLParen, lp));
        }
        let args = match self.parse_param_list(Ghost(ts), Ghost(k + 4)) {
            Ok(args) => args,
            Err(e) => return Err(e),
        };
        let ghost k1 = p_param_list(ts, k + 4)->Ok_0.1;
        let after = self.look(Ghost(ts), Ghost(k1));
        let ghost k2: int;
        let return_type: String;
        if after.token_type == TokenType::Colon {
            let _ = self.advance(Ghost(ts), Ghost(k1));
            let r = self.advance(Ghost(ts), Ghost(k1 + 1));
            if r.token_type != TokenType::Identifier {
                return Err(error(ErrorKind::ExpectedReturnType, r));
            }
            return_type = r.value;
            proof {
                k2 = k1 + 2;
            }
        } else {
            return_type = String::from_str("void");
            proof {
                k2 = k1;
            }
        }
        let lb = self.advance(Ghost(ts), Ghost(k2));
        if lb.token_type != TokenType::LBrace {
            return Err(error(ErrorKind::ExpectedLBrace, lb));
        }
        let returns_void = text_is(&return_type, "void");
        let body = match self.parse_body(returns_void, Ghost(return_type@), Ghost(ts), Ghost(k2 + 1)) {
            Ok(body) => body,
            Err(e) => return Err(e),
        };
        Ok(AST::FunctionDefinition { name: name.value, args, body, return_type })
    }

    /// The symbol under which function `name` of file `filename` is emitted.
    pub fn name_with_file(filename: String, name: String) -> (r: String)
        ensures
            r@ == symbol(filename@, name@),
    {
        let f = filename.as_str();
        let n = f.unicode_len();
        let mut r = String::new();
        let mut i: usize = 0;
        while i < n
            invariant
                f@ == filename@,
                n == f@.len(),
                i <= n,
                r@ == mangled(filename@.subrange(0, i as int)),
            decreases n - i,
        {
            let c = f.get_char(i);
            if c == '/' || c == '.' {
                r.append("_");
            } else {
                r.append(f.substring_char(i, i + 1));
            }
            proof {
                reveal_strlit("_");
                assert(filename@.subrange(0, i + 1) =~= filename@.subrange(0, i as int).push(c));
            }
            i = i + 1;
            assert(r@ =~= mangled(filename@.subrange(0, i as int)));
        }
        proof {
            assert(filename@.subrange(0, n as int) =~= filename@);
        }
        r.append("__");
        r.append(name.as_str());
        r.append("__");
        r
    }

    /// The symbol of function `name` of the file that `file` is the tree of.
    pub fn name_with_file_from_ast(file: AST, name: String) -> (r: String)
        requires
            file is File,
        ensures
            r@ == symbol(file->File_filename@, name@),
    {
        match file {
            AST::File { filename, .. } => Self::name_with_file(filename, name),
            _ => name,
        }
    }

    /// Parses the declarations that the remaining tokens hold, up to the end of
    /// the input, and stops at the first structural error.
    pub fn parse(&mut self, filename: String) -> (r: Result<AST, ParseError>)
        requires
            old(self).wf(),
        ensures
            final(self).wf(),
            match parse_tokens(old(self).tokens()) {
                Ok(ms) => r is Ok && file_is(r->Ok_0, filename@, ms),
                Err(e) => r is Err && r->Err_0@ == e,
            },
            r is Ok ==> emittable(r->Ok_0),
    {
        let ghost ts = self.tokens();
        proof {
            self.lexer.lemma_state_in_source();
            lemma_tokens_from_next(self.lexer.src(), self.lexer.state());
            assert(ts.subrange(0, ts.len() as int) =~= ts);
        }
        let mut child: Vec<AST> = Vec::new();
        let ghost mut i: int = 0;
        let ghost mut acc: Seq<FunctionModel> = Seq::empty();
        loop
            invariant
                self.at(ts, i),
                0 <= i,
                ts == old(self).tokens(),
                parse_tokens(ts) == p_decls(ts, i, acc),
                functions_are(child@, acc),
            decreases ts.len() - i,
        {
            let t = self.advance(Ghost(ts), Ghost(i));
            if t.token_type == TokenType::EOF {
                let file = AST::File { child, filename };
                proof {
                    lemma_parsed_file_emittable(file, filename@, acc);
                }
                return Ok(file);
            }
            if t.token_type != TokenType::Identifier {
                return Err(error(ErrorKind::UnexpectedToken, t));
            }
            let f = match self.parse_function(t, Ghost(ts), Ghost(i)) {
                Ok(f) => f,
                Err(e) => return Err(e),
            };
            let ghost (m, k1) = p_function(ts, i)->Ok_0;
            child.push(f);
            proof {
                lemma_function_advances(ts, i);
                acc = acc.push(m);
                i = k1;
                assert(functions_are(child@, acc)) by {
                    assert forall|j: int| 0 <= j < child@.len() implies #[trigger] function_is(child@[j], acc[j]) by {
                    }
                }
            }
        }
    }
}

pub proof fn lemma_params_advance(ts: Seq<TokenModel>, k: int, acc: Seq<ParamModel>)
    requires
        0 <= k,
    ensures
        p_params(ts, k, acc) matches Ok((_, k1)) ==> k < k1 <= ts.len(),
    decreases ts.len() - k,
{
    if let Ok((p, k1)) = p_param(ts, k) {
        if tok(ts, k1).kind == TokenType::Comma {
            lemma_params_advance(ts, k1 + 1, acc.push(p));
        }
    }
}

pub proof fn lemma_body_advances(ts: Seq<TokenModel>, k: int, ret: Seq<char>, acc: Seq<Option<Seq<char>>>)
    requires
        0 <= k,
    ensures
        p_body(ts, k, ret, acc) matches Ok((_, k1)) ==> k < k1 <= ts.len(),
    decreases ts.len() - k,
{
    let t = tok(ts, k);
    let v = tok(ts, k + 1);
    if t.kind == TokenType::RBrace || t.kind == TokenType::EOF {
    } else if t.kind != TokenType::Identifier || t.text != "return"@ {
    } else if v.kind == TokenType::Semicolon {
        lemma_body_advances(ts, k + 2, ret, acc.push(None));
    } else if tok(ts, k + 2).kind == TokenType::Semicolon {
        lemma_body_advances(ts, k + 3, ret, acc.push(Some(v.text)));
    }
}

pub proof fn lemma_function_advances(ts: Seq<TokenModel>, k: int)
    requires
        0 <= k,
    ensures
        p_function(ts, k) matches Ok((_, k1)) ==> k < k1 <= ts.len(),
{
    lemma_params_advance(ts, k + 4, Seq::empty());
    if let Ok((_, k1)) = p_param_list(ts, k + 4) {
        if let Ok((ret, k2)) = p_return_type(ts, k1) {
            lemma_body_advances(ts, k2 + 1, ret, Seq::empty());
        }
    }
}

} // verus!
