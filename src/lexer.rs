use vstd::prelude::*;

verus! {

broadcast use vstd::string::group_string_axioms;

/// The kinds of lexeme the scanner produces.
#[derive(Debug, Clone, Copy, PartialEq, Eq, Structural)]
pub enum TokenType {
    LParen,
    RParen,
    LBrace,
    RBrace,
    Comma,
    LAngle,
    RAngle,
    Colon,
    Identifier,
    Semicolon,
    Number,
    EOF,
}

/// A lexeme with the 1-based line and column where it starts.
#[derive(Debug, Clone)]
pub struct Token {
    pub token_type: TokenType,
    pub value: String,
    pub char_pos: i32,
    pub line: i32,
}

/// What a token stands for: its kind, its text and where it starts.
pub struct TokenModel {
    pub kind: TokenType,
    pub text: Seq<char>,
    pub line: int,
    pub col: int,
}

impl View for Token {
    type V = TokenModel;

    open spec fn view(&self) -> TokenModel {
        TokenModel {
            kind: self.token_type,
            text: self.value@,
            line: self.line as int,
            col: self.char_pos as int,
        }
    }
}

impl Token {
    pub fn new(token_type: TokenType, value: String, char_pos: i32, line: i32) -> (r: Token)
        ensures
            r.token_type == token_type,
            r.value@ == value@,
            r.char_pos == char_pos,
            r.line == line,
    {
        Token { token_type, value, char_pos, line }
    }
}

/// The scanner's position: an offset in characters, and the line and column
/// that offset lies on.
pub struct LexState {
    pub pos: nat,
    pub line: int,
    pub col: int,
}

/// The single-character lexemes and their kinds.
pub open spec fn punct_kind(c: char) -> Option<TokenType> {
    if c == '(' {
        Some(TokenType::LParen)
    } else if c == ')' {
        Some(TokenType::RParen)
    } else if c == '{' {
        Some(TokenType::LBrace)
    } else if c == '}' {
        Some(TokenType::RBrace)
    } else if c == ',' {
        Some(TokenType::Comma)
    } else if c == '<' {
        Some(TokenType::LAngle)
    } else if c == '>' {
        Some(TokenType::RAngle)
    } else if c == ':' {
        Some(TokenType::Colon)
    } else if c == ';' {
        Some(TokenType::Semicolon)
    } else {
        None
    }
}

pub open spec fn is_digit(c: char) -> bool {
    '0' <= c <= '9'
}

/// An identifier starts with an ASCII letter or an underscore.
pub open spec fn starts_identifier(c: char) -> bool {
    ('a' <= c <= 'z') || ('A' <= c <= 'Z') || c == '_'
}

/// Whether `char::is_alphanumeric` holds of a character (alphabetic or
/// numeric in Unicode's sense).
pub uninterp spec fn alphanumeric(c: char) -> bool;

/// Relies on `char::is_alphanumeric`: its answer depends on the character
/// alone, and among ASCII characters it holds of the letters and digits
/// alone (it is Unicode's Alphabetic or Numeric property, which on ASCII are
/// `A`-`Z`, `a`-`z` and `0`-`9`).
#[verifier::external_body]
fn is_alphanumeric(c: char) -> (r: bool)
    ensures
        r == alphanumeric(c),
        (c as u32) < 0x80 ==> (r <==> (('a' <= c <= 'z') || ('A' <= c <= 'Z') || ('0' <= c
            <= '9'))),
{
    c.is_alphanumeric()
}

/// An identifier goes on with alphanumeric characters and underscores: among
/// ASCII characters, letters, digits and `_`.
pub open spec fn continues_identifier(c: char) -> bool {
    if (c as u32) < 0x80 {
        ('a' <= c <= 'z') || ('A' <= c <= 'Z') || is_digit(c) || c == '_'
    } else {
        alphanumeric(c)
    }
}

/// The end of a run of digits that begins at `i`: digits, each underscore
/// kept only where a digit follows it.
pub open spec fn number_end(s: Seq<char>, i: int) -> int
    decreases s.len() - i,
{
    if 0 <= i < s.len() && is_digit(s[i]) {
        number_end(s, i + 1)
    } else if 0 <= i && i + 1 < s.len() && s[i] == '_' && is_digit(s[i + 1]) {
        number_end(s, i + 2)
    } else {
        i
    }
}

/// The end of the identifier characters that begin at `i`.
pub open spec fn identifier_end(s: Seq<char>, i: int) -> int
    decreases s.len() - i,
{
    if 0 <= i < s.len() && continues_identifier(s[i]) {
        identifier_end(s, i + 1)
    } else {
        i
    }
}

pub open spec fn token_model(kind: TokenType, text: Seq<char>, st: LexState) -> TokenModel {
    TokenModel { kind, text, line: st.line, col: st.col }
}

/// One scanning step from `st`: the token that starts there, if any, and the
/// state after it. A character that starts no token is passed over; a newline
/// moves to column 1 of the next line, any other character one column on.
pub open spec fn step(s: Seq<char>, st: LexState) -> (Option<TokenModel>, LexState) {
    if st.pos >= s.len() {
        (Some(token_model(TokenType::EOF, Seq::empty(), st)), st)
    } else {
        let p = st.pos as int;
        let c = s[p];
        if punct_kind(c) is Some {
            (
                Some(token_model(punct_kind(c)->0, seq![c], st)),
                LexState { pos: st.pos + 1, line: st.line, col: st.col + 1 },
            )
        } else if is_digit(c) || starts_identifier(c) {
            let end = if is_digit(c) {
                number_end(s, p + 1)
            } else {
                identifier_end(s, p + 1)
            };
            let kind = if is_digit(c) {
                TokenType::Number
            } else {
                TokenType::Identifier
            };
            (
                Some(token_model(kind, s.subrange(p, end), st)),
                LexState { pos: end as nat, line: st.line, col: st.col + (end - st.pos) },
            )
        } else if c == '\n' {
            (None, LexState { pos: st.pos + 1, line: st.line + 1, col: 1 })
        } else {
            (None, LexState { pos: st.pos + 1, line: st.line, col: st.col + 1 })
        }
    }
}

/// The token that `next` returns from `st`, and the state after it.
pub open spec fn next_token(s: Seq<char>, st: LexState) -> (TokenModel, LexState)
    decreases s.len() - st.pos,
{
    let (t, st2) = step(s, st);
    match t {
        Some(t) => (t, st2),
        None => if st.pos < s.len() {
            next_token(s, st2)
        } else {
            (token_model(TokenType::EOF, Seq::empty(), st), st)
        },
    }
}

pub open spec fn token_view(t: Option<Token>) -> Option<TokenModel> {
    match t {
        Some(t) => Some(t@),
        None => None,
    }
}

proof fn lemma_number_end_bounds(s: Seq<char>, i: int)
    requires
        0 <= i <= s.len(),
    ensures
        i <= number_end(s, i) <= s.len(),
    decreases s.len() - i,
{
    if i < s.len() && is_digit(s[i]) {
        lemma_number_end_bounds(s, i + 1);
    } else if i + 1 < s.len() && s[i] == '_' && is_digit(s[i + 1]) {
        lemma_number_end_bounds(s, i + 2);
    }
}

proof fn lemma_identifier_end_bounds(s: Seq<char>, i: int)
    requires
        0 <= i <= s.len(),
    ensures
        i <= identifier_end(s, i) <= s.len(),
    decreases s.len() - i,
{
    if i < s.len() && continues_identifier(s[i]) {
        lemma_identifier_end_bounds(s, i + 1);
    }
}

fn punct_of(c: char) -> (r: Option<TokenType>)
    ensures
        r == punct_kind(c),
{
    match c {
        '(' => Some(TokenType::LParen),
        ')' => Some(TokenType::RParen),
        '{' => Some(TokenType::LBrace),
        '}' => Some(TokenType::RBrace),
        ',' => Some(TokenType::Comma),
        '<' => Some(TokenType::LAngle),
        '>' => Some(TokenType::RAngle),
        ':' => Some(TokenType::Colon),
        ';' => Some(TokenType::Semicolon),
        _ => None,
    }
}

fn digit(c: char) -> (r: bool)
    ensures
        r == is_digit(c),
{
    '0' <= c && c <= '9'
}

fn identifier_start(c: char) -> (r: bool)
    ensures
        r == starts_identifier(c),
{
    ('a' <= c && c <= 'z') || ('A' <= c && c <= 'Z') || c == '_'
}

/// Where scanning of a fresh source begins.
pub open spec fn start_state() -> LexState {
    LexState { pos: 0, line: 1, col: 1 }
}

/// The tokens that `next` returns, one call after another, from `st` up to
/// and including the first `EOF`.
pub open spec fn tokens_from(s: Seq<char>, st: LexState) -> Seq<TokenModel>
    decreases s.len() - st.pos,
{
    let (t, st2) = next_token(s, st);
    if t.kind == TokenType::EOF || st.pos > s.len() {
        seq![t]
    } else {
        proof {
            lemma_next_token_advances(s, st);
        }
        seq![t] + tokens_from(s, st2)
    }
}

/// A token other than `EOF` moves the scanner forward, within the source.
pub proof fn lemma_next_token_advances(s: Seq<char>, st: LexState)
    requires
        st.pos <= s.len(),
    ensures
        st.pos <= next_token(s, st).1.pos <= s.len(),
        next_token(s, st).0.kind != TokenType::EOF ==> st.pos < next_token(s, st).1.pos,
        next_token(s, st).0.kind == TokenType::EOF ==> next_token(s, st).1.pos == s.len()
            && next_token(s, st).0 == token_model(TokenType::EOF, Seq::empty(), next_token(s, st).1),
    decreases s.len() - st.pos,
{
    if st.pos < s.len() {
        lemma_number_end_bounds(s, st.pos + 1int);
        lemma_identifier_end_bounds(s, st.pos + 1int);
        if step(s, st).0 is None {
            lemma_next_token_advances(s, step(s, st).1);
        }
    }
}

/// The first of the tokens from `st` is the one `next` returns; after a
/// token other than `EOF` they go on from the state `next` leaves, and `EOF`
/// is the last of them, read again from that state.
pub proof fn lemma_tokens_from_next(s: Seq<char>, st: LexState)
    requires
        st.pos <= s.len(),
    ensures
        tokens_from(s, st).len() >= 1,
        tokens_from(s, st)[0] == next_token(s, st).0,
        next_token(s, st).1.pos <= s.len(),
        next_token(s, st).0.kind != TokenType::EOF ==> tokens_from(s, st) == seq![
            next_token(s, st).0,
        ] + tokens_from(s, next_token(s, st).1),
        next_token(s, st).0.kind == TokenType::EOF ==> tokens_from(s, st) == seq![
            next_token(s, st).0,
        ] && tokens_from(s, next_token(s, st).1) == tokens_from(s, st),
{
    lemma_next_token_advances(s, st);
    let (t, st2) = next_token(s, st);
    if t.kind == TokenType::EOF {
        assert(next_token(s, st2) == (t, st2));
    }
}

/// The tokens from any state end with `EOF`, and hold no other.
pub proof fn lemma_single_eof(s: Seq<char>, st: LexState)
    requires
        st.pos <= s.len(),
    ensures
        tokens_from(s, st).last().kind == TokenType::EOF,
        forall|i: int|
            0 <= i < tokens_from(s, st).len() - 1 ==> (#[trigger] tokens_from(s, st)[i]).kind
                != TokenType::EOF,
    decreases s.len() - st.pos,
{
    lemma_tokens_from_next(s, st);
    let (t, st2) = next_token(s, st);
    if t.kind != TokenType::EOF {
        lemma_next_token_advances(s, st);
        lemma_single_eof(s, st2);
        let ts = tokens_from(s, st);
        assert forall|i: int| 0 <= i < ts.len() - 1 implies (#[trigger] ts[i]).kind
            != TokenType::EOF by {
            if i > 0 {
                assert(ts[i] == tokens_from(s, st2)[i - 1]);
            }
        }
    }
}

/// A source made of the characters `( ) { } , < > : ;` alone scans to one
/// token per character, of that character's kind and with it as text, in
/// order, and then a single `EOF`.
pub proof fn lemma_punctuation_tokens(s: Seq<char>)
    requires
        forall|i: int| 0 <= i < s.len() ==> #[trigger] punct_kind(s[i]) is Some,
    ensures
        tokens_from(s, start_state()).len() == s.len() + 1,
        forall|i: int|
            0 <= i < s.len() ==> (#[trigger] tokens_from(s, start_state())[i]).kind
                == punct_kind(s[i])->0 && tokens_from(s, start_state())[i].text == seq![s[i]],
        tokens_from(s, start_state())[s.len() as int].kind == TokenType::EOF,
{
    lemma_punctuation_tokens_from(s, start_state());
}

proof fn lemma_punctuation_tokens_from(s: Seq<char>, st: LexState)
    requires
        st.pos <= s.len(),
        forall|i: int| 0 <= i < s.len() ==> #[trigger] punct_kind(s[i]) is Some,
    ensures
        tokens_from(s, st).len() == s.len() - st.pos + 1,
        forall|i: int|
            0 <= i < s.len() - st.pos ==> (#[trigger] tokens_from(s, st)[i]).kind == punct_kind(
                s[st.pos + i],
            )->0 && tokens_from(s, st)[i].text == seq![s[st.pos + i]],
        tokens_from(s, st)[s.len() - st.pos].kind == TokenType::EOF,
    decreases s.len() - st.pos,
{
    if st.pos < s.len() {
        assert(punct_kind(s[st.pos as int]) is Some);
        let st2 = next_token(s, st).1;
        lemma_punctuation_tokens_from(s, st2);
        let ts = tokens_from(s, st);
        assert forall|i: int| 0 <= i < s.len() - st.pos implies (#[trigger] ts[i]).kind
            == punct_kind(s[st.pos + i])->0 && ts[i].text == seq![s[st.pos + i]] by {
            if i > 0 {
                assert(ts[i] == tokens_from(s, st2)[i - 1]);
            }
        }
    }
}

/// A pull-based scanner over a source text.
#[derive(Debug, Clone)]
pub struct Lexer {
    source: String,
    chars: Vec<char>,
    pos: usize,
    char_pos: i32,
    line: i32,
}

impl Lexer {
    /// The source text being scanned.
    pub closed spec fn src(&self) -> Seq<char> {
        self.chars@
    }

    /// Where the scanner stands.
    pub closed spec fn state(&self) -> LexState {
        LexState { pos: self.pos as nat, line: self.line as int, col: self.char_pos as int }
    }

    pub closed spec fn wf(&self) -> bool {
        &&& self.chars@ == self.source@
        &&& self.chars@.len() < i32::MAX
        &&& self.pos <= self.chars@.len()
        &&& 1 <= self.line <= self.pos + 1
        &&& 1 <= self.char_pos <= self.pos + 1
    }

    pub proof fn lemma_state_in_source(&self)
        requires
            self.wf(),
        ensures
            self.state().pos <= self.src().len(),
    {
    }

    pub fn new(source: String) -> (r: Lexer)
        requires
            source@.len() < i32::MAX,
        ensures
            r.wf(),
            r.src() == source@,
            r.state() == start_state(),
    {
        let mut chars: Vec<char> = Vec::new();
        for c in it: source.chars()
            invariant
                chars@ == it.seq().subrange(0, it.index() as int),
                it.seq() == source@,
        {
            chars.push(c);
        }
        assert(chars@ == source@);
        Lexer { source, chars, pos: 0, char_pos: 1, line: 1 }
    }

    /// The end of the run of digits, or of identifier characters, that
    /// goes on from `from`.
    fn run_end(&self, from: usize, number: bool) -> (end: usize)
        requires
            self.wf(),
            from <= self.src().len(),
        ensures
            end == (if number {
                number_end(self.src(), from as int)
            } else {
                identifier_end(self.src(), from as int)
            }),
            from <= end <= self.src().len(),
    {
        let n = self.chars.len();
        let mut end = from;
        proof {
            lemma_number_end_bounds(self.src(), from as int);
            lemma_identifier_end_bounds(self.src(), from as int);
        }
        while end < n
            invariant
                self.wf(),
                n == self.src().len(),
                from <= end <= n,
                number ==> number_end(self.src(), end as int) == number_end(self.src(), from as int),
                !number ==> identifier_end(self.src(), end as int) == identifier_end(
                    self.src(),
                    from as int,
                ),
            ensures
                number ==> end == number_end(self.src(), from as int),
                !number ==> end == identifier_end(self.src(), from as int),
            decreases n - end,
        {
            let c = self.chars[end];
            if number {
                if digit(c) {
                    end = end + 1;
                } else if c == '_' && end + 1 < n && digit(self.chars[end + 1]) {
                    end = end + 2;
                } else {
                    break;
                }
            } else {
                if is_alphanumeric(c) || c == '_' {
                    end = end + 1;
                } else {
                    break;
                }
            }
        }
        end
    }

    /// The text between two offsets of the source.
    fn text(&self, from: usize, to: usize) -> (r: String)
        requires
            self.wf(),
            from <= to <= self.src().len(),
        ensures
            r@ == self.src().subrange(from as int, to as int),
    {
        self.source.as_str().substring_char(from, to).to_owned()
    }

    /// Scans one step: returns the token that starts at the current offset,
    /// or `None` after passing over a character that starts none.
    pub fn try_token(&mut self) -> (r: Option<Token>)
        requires
            old(self).wf(),
        ensures
            final(self).wf(),
            final(self).src() == old(self).src(),
            token_view(r) == step(old(self).src(), old(self).state()).0,
            final(self).state() == step(old(self).src(), old(self).state()).1,
    {
        if self.pos >= self.chars.len() {
            return Some(Token::new(TokenType::EOF, String::new(), self.char_pos, self.line));
        }
        let start = self.pos;
        let c = self.chars[start];
        if let Some(kind) = punct_of(c) {
            let t = Token::new(kind, self.text(start, start + 1), self.char_pos, self.line);
            self.pos = start + 1;
            self.char_pos = self.char_pos + 1;
            proof {
                assert(t.value@ =~= seq![c]);
            }
            Some(t)
        } else if digit(c) || identifier_start(c) {
            let number = digit(c);
            let end = self.run_end(start + 1, number);
            let kind = if number {
                TokenType::Number
            } else {
                TokenType::Identifier
            };
            let t = Token::new(kind, self.text(start, end), self.char_pos, self.line);
            self.pos = end;
            self.char_pos = self.char_pos + (end - start) as i32;
            Some(t)
        } else {
            self.pos = start + 1;
            if c == '\n' {
                self.line = self.line + 1;
                self.char_pos = 1;
            } else {
                self.char_pos = self.char_pos + 1;
            }
            None
        }
    }

    /// Returns the next token and moves past it; at the end of the source,
    /// returns `EOF` and stays there.
    pub fn next(&mut self) -> (t: Token)
        requires
            old(self).wf(),
        ensures
            final(self).wf(),
            final(self).src() == old(self).src(),
            (t@, final(self).state()) == next_token(old(self).src(), old(self).state()),
    {
        loop
            invariant
                self.wf(),
                self.src() == old(self).src(),
                next_token(self.src(), self.state()) == next_token(
                    old(self).src(),
                    old(self).state(),
                ),
            decreases self.src().len() - self.state().pos,
        {
            if let Some(t) = self.try_token() {
                return t;
            }
        }
    }

    /// Scans a whole source: the tokens that `next` returns one after
    /// another, up to the end of the source; the final `EOF` is left out.
    pub fn tokenize(source: String) -> (r: Vec<Token>)
        requires
            source@.len() < i32::MAX,
        ensures
            r@.map_values(|t: Token| t@) == tokens_from(source@, start_state()).drop_last(),
    {
        let mut lexer = Lexer::new(source);
        let mut tokens: Vec<Token> = Vec::new();
        loop
            invariant_except_break
                tokens@.map_values(|t: Token| t@) + tokens_from(source@, lexer.state())
                    == tokens_from(source@, start_state()),
            invariant
                lexer.wf(),
                lexer.src() == source@,
            ensures
                tokens@.map_values(|t: Token| t@) == tokens_from(source@, start_state()).drop_last(),
            decreases source@.len() - lexer.state().pos,
        {
            let ghost before = lexer.state();
            let t = lexer.next();
            proof {
                lemma_next_token_advances(source@, before);
            }
            let ghost done = tokens@.map_values(|t: Token| t@);
            if t.token_type == TokenType::EOF {
                assert(tokens_from(source@, before) =~= seq![t@]);
                assert((done + seq![t@]).drop_last() =~= done);
                break;
            }
            tokens.push(t);
            assert(tokens@.map_values(|t: Token| t@) =~= done.push(t@));
            assert(tokens_from(source@, before) =~= seq![t@] + tokens_from(source@, lexer.state()));
            assert(done.push(t@) + tokens_from(source@, lexer.state()) =~= done + (seq![t@] + tokens_from(source@, lexer.state())));
        }
        tokens
    }

    /// Returns the token that `next` would return, and leaves the scanner
    /// where it was.
    pub fn peek(&mut self) -> (t: Token)
        requires
            old(self).wf(),
        ensures
            final(self).wf(),
            final(self).src() == old(self).src(),
            final(self).state() == old(self).state(),
            t@ == next_token(old(self).src(), old(self).state()).0,
    {
        let current_pos = self.pos;
        let current_char_pos = self.char_pos;
        let current_line = self.line;

        let token = self.next();

        self.pos = current_pos;
        self.char_pos = current_char_pos;
        self.line = current_line;
        token
    }
}

} // verus!
