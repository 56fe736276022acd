//! Turns source text into a sequence of tagged tokens, each carrying
//! the half-open byte range it was read from.
//!
//! The scan runs left to right in one pass: single-character operators
//! map directly to tokens, whitespace is skipped, a digit or `.` starts
//! a numeric literal, an alphabetic character starts an identifier
//! whose lowercased text is matched against constant and function
//! names. Any other character stops the scan with an error.

use vstd::prelude::*;

verus! {

/// A half-open byte range into the source text.
#[derive(Debug, Clone, Copy, PartialEq, Eq, Structural)]
pub struct Span {
    pub start: usize,
    pub end: usize,
}

/// The single-character operator symbols of the grammar.
#[derive(Debug, Clone, Copy, PartialEq, Eq, Structural)]
pub enum Operator {
    Plus,
    Minus,
    Star,
    Slash,
    Percent,
    Caret,
    LParen,
    RParen,
    Pipe,
    Equals,
    Comma,
}

/// The built-in functions; each takes exactly one argument.
#[derive(Debug, Clone, Copy, PartialEq, Eq, Structural)]
pub enum Function {
    Sqrt,
    Sin,
    Cos,
    Tan,
    Log,
    Abs,
}

/// The built-in named constants.
#[derive(Debug, Clone, Copy, PartialEq, Eq, Structural)]
pub enum Constant {
    Pi,
    E,
}

/// A lexical token. A numeric literal keeps its source text, so that
/// any numeric backend can later read it; identifiers are stored
/// lowercased.
#[derive(Debug, Clone, PartialEq)]
pub enum Token {
    Number(String),
    Operator(Operator),
    Function(Function),
    Constant(Constant),
    Identifier(String),
}

/// The mathematical image of a token: its texts as character sequences.
pub enum TokenV {
    Number(Seq<char>),
    Operator(Operator),
    Function(Function),
    Constant(Constant),
    Identifier(Seq<char>),
}

impl View for Token {
    type V = TokenV;

    open spec fn view(&self) -> TokenV {
        match self {
            Token::Number(t) => TokenV::Number(t@),
            Token::Operator(op) => TokenV::Operator(*op),
            Token::Function(f) => TokenV::Function(*f),
            Token::Constant(c) => TokenV::Constant(*c),
            Token::Identifier(t) => TokenV::Identifier(t@),
        }
    }
}

/// A token together with the source range it was read from.
#[derive(Debug, Clone, PartialEq)]
pub struct SpannedToken {
    pub token: Token,
    pub span: Span,
}

/// The mathematical image of a spanned token.
pub struct STokV {
    pub token: TokenV,
    pub start: int,
    pub end: int,
}

impl View for SpannedToken {
    type V = STokV;

    open spec fn view(&self) -> STokV {
        STokV { token: self.token@, start: self.span.start as int, end: self.span.end as int }
    }
}

/// The ways a scan can fail.
#[derive(Debug, Clone, PartialEq)]
pub enum LexerError {
    InvalidCharacter(char),
    InvalidNumber(String),
}

/// The mathematical image of a scan failure.
pub enum LexErrV {
    InvalidCharacter(char),
    InvalidNumber(Seq<char>),
}

impl View for LexerError {
    type V = LexErrV;

    open spec fn view(&self) -> LexErrV {
        match self {
            LexerError::InvalidCharacter(c) => LexErrV::InvalidCharacter(*c),
            LexerError::InvalidNumber(t) => LexErrV::InvalidNumber(t@),
        }
    }
}

/// A scan failure with the source range of the offending text.
#[derive(Debug, Clone, PartialEq)]
pub struct TokenizeError {
    pub code: LexerError,
    pub span: Span,
}

/// The mathematical image of a spanned scan failure.
pub struct TokErrV {
    pub code: LexErrV,
    pub start: int,
    pub end: int,
}

impl View for TokenizeError {
    type V = TokErrV;

    open spec fn view(&self) -> TokErrV {
        TokErrV { code: self.code@, start: self.span.start as int, end: self.span.end as int }
    }
}

/// The operator a single character denotes, if any.
pub open spec fn single_op(c: char) -> Option<Operator> {
    if c == '+' {
        Some(Operator::Plus)
    } else if c == '-' {
        Some(Operator::Minus)
    } else if c == '*' {
        Some(Operator::Star)
    } else if c == '/' {
        Some(Operator::Slash)
    } else if c == '%' {
        Some(Operator::Percent)
    } else if c == '^' {
        Some(Operator::Caret)
    } else if c == '(' {
        Some(Operator::LParen)
    } else if c == ')' {
        Some(Operator::RParen)
    } else if c == '|' {
        Some(Operator::Pipe)
    } else if c == '=' {
        Some(Operator::Equals)
    } else if c == ',' {
        Some(Operator::Comma)
    } else {
        None
    }
}

/// The character is a decimal digit.
pub open spec fn is_digit_c(c: char) -> bool {
    48 <= c as u32 <= 57
}

/// The character may stand inside a numeric literal.
pub open spec fn is_num_c(c: char) -> bool {
    is_digit_c(c) || c == '.'
}

/// Whether the character is alphabetic. The standard library decides;
/// the name stands for `char::is_alphabetic`, a function of the
/// character alone.
pub uninterp spec fn is_alpha_of(c: char) -> bool;

/// Whether the character is whitespace. The standard library decides;
/// the name stands for `char::is_whitespace`, a function of the
/// character alone.
pub uninterp spec fn is_space_of(c: char) -> bool;

/// The lowercased image of a text. The standard library decides; the
/// name stands for `str::to_lowercase`, a function of the characters
/// alone.
pub uninterp spec fn lower_of(s: Seq<char>) -> Seq<char>;

/// How many bytes the character occupies in UTF-8, fixed by its scalar
/// value.
pub open spec fn char_width(c: char) -> nat {
    if (c as u32) < 0x80 {
        1
    } else if (c as u32) < 0x800 {
        2
    } else if (c as u32) < 0x10000 {
        3
    } else {
        4
    }
}

/// The byte offset of character position `i`: the UTF-8 widths of the
/// characters before it, summed.
pub open spec fn byte_pos(s: Seq<char>, i: int) -> nat
    decreases i,
{
    if i <= 0 {
        0
    } else {
        byte_pos(s, i - 1) + char_width(s[i - 1])
    }
}

/// Byte offsets grow with character positions.
proof fn lemma_byte_pos_mono(s: Seq<char>, i: int, j: int)
    requires
        0 <= i <= j,
    ensures
        byte_pos(s, i) <= byte_pos(s, j),
    decreases j,
{
    if i < j {
        lemma_byte_pos_mono(s, i, j - 1);
    }
}

/// The first position at or after `i` that does not continue a numeric
/// literal.
pub open spec fn num_end(s: Seq<char>, i: int) -> int
    decreases s.len() - i,
{
    if 0 <= i < s.len() && is_num_c(s[i]) {
        num_end(s, i + 1)
    } else {
        i
    }
}

/// The first position at or after `i` that does not continue an
/// identifier.
pub open spec fn ident_end(s: Seq<char>, i: int) -> int
    decreases s.len() - i,
{
    if 0 <= i < s.len() && is_alpha_of(s[i]) {
        ident_end(s, i + 1)
    } else {
        i
    }
}

/// How many radix points the text holds.
pub open spec fn count_dots(s: Seq<char>) -> nat
    decreases s.len(),
{
    if s.len() == 0 {
        0
    } else {
        count_dots(s.drop_last()) + if s.last() == '.' {
            1nat
        } else {
            0nat
        }
    }
}

/// The text holds at least one digit.
pub open spec fn has_digit(s: Seq<char>) -> bool {
    exists|i: int| 0 <= i < s.len() && is_digit_c(s[i])
}

/// A run of digits and radix points reads as a number exactly when it
/// has at most one radix point and at least one digit.
pub open spec fn valid_number(s: Seq<char>) -> bool {
    count_dots(s) <= 1 && has_digit(s)
}

/// The token the lowercased text of an identifier denotes.
pub open spec fn keyword_token(low: Seq<char>) -> TokenV {
    if low == "pi"@ {
        TokenV::Constant(Constant::Pi)
    } else if low == "e"@ {
        TokenV::Constant(Constant::E)
    } else if low == "sqrt"@ {
        TokenV::Function(Function::Sqrt)
    } else if low == "sin"@ {
        TokenV::Function(Function::Sin)
    } else if low == "cos"@ {
        TokenV::Function(Function::Cos)
    } else if low == "tan"@ {
        TokenV::Function(Function::Tan)
    } else if low == "log"@ {
        TokenV::Function(Function::Log)
    } else if low == "abs"@ {
        TokenV::Function(Function::Abs)
    } else {
        TokenV::Identifier(low)
    }
}

/// Prefixes a token onto the outcome of scanning the rest of the text.
pub open spec fn lex_cons(t: STokV, rest: Result<Seq<STokV>, TokErrV>) -> Result<
    Seq<STokV>,
    TokErrV,
> {
    match rest {
        Ok(ts) => Ok(seq![t] + ts),
        Err(e) => Err(e),
    }
}

/// The outcome of scanning the text from position `i` on.
pub open spec fn spec_tokenize_at(s: Seq<char>, i: int) -> Result<Seq<STokV>, TokErrV>
    decreases s.len() - i,
{
    if !(0 <= i < s.len()) {
        Ok(Seq::empty())
    } else {
        let c = s[i];
        if single_op(c) is Some {
            lex_cons(
                STokV {
                    token: TokenV::Operator(single_op(c)->0),
                    start: byte_pos(s, i) as int,
                    end: byte_pos(s, i + 1) as int,
                },
                spec_tokenize_at(s, i + 1),
            )
        } else if is_space_of(c) {
            spec_tokenize_at(s, i + 1)
        } else if is_num_c(c) {
            let j0 = num_end(s, i);
            let j = if i < j0 <= s.len() {
                j0
            } else {
                i + 1
            };
            let text = s.subrange(i, j);
            if valid_number(text) {
                lex_cons(
                    STokV {
                        token: TokenV::Number(text),
                        start: byte_pos(s, i) as int,
                        end: byte_pos(s, j) as int,
                    },
                    spec_tokenize_at(s, j),
                )
            } else {
                Err(
                    TokErrV {
                        code: LexErrV::InvalidNumber(text),
                        start: byte_pos(s, i) as int,
                        end: byte_pos(s, j) as int,
                    },
                )
            }
        } else if is_alpha_of(c) {
            let j0 = ident_end(s, i);
            let j = if i < j0 <= s.len() {
                j0
            } else {
                i + 1
            };
            let low = lower_of(s.subrange(i, j));
            lex_cons(
                STokV {
                    token: keyword_token(low),
                    start: byte_pos(s, i) as int,
                    end: byte_pos(s, j) as int,
                },
                spec_tokenize_at(s, j),
            )
        } else {
            Err(
                TokErrV {
                    code: LexErrV::InvalidCharacter(c),
                    start: byte_pos(s, i) as int,
                    end: byte_pos(s, i + 1) as int,
                },
            )
        }
    }
}

/// The outcome of scanning the whole text.
pub open spec fn spec_tokenize(s: Seq<char>) -> Result<Seq<STokV>, TokErrV> {
    spec_tokenize_at(s, 0)
}

/// The views of a sequence of spanned tokens.
pub open spec fn toks_view(v: Seq<SpannedToken>) -> Seq<STokV> {
    v.map_values(|t: SpannedToken| t@)
}

/// Whether the character continues a numeric literal.
fn is_num_char(c: char) -> (b: bool)
    ensures
        b == is_num_c(c),
{
    let u = c as u32;
    (48 <= u && u <= 57) || c == '.'
}

/// Relies on `char::is_alphabetic`: whether the character has the
/// Unicode Alphabetic property, a function of the character alone.
#[verifier::external_body]
fn is_alpha_char(c: char) -> (b: bool)
    ensures
        b == is_alpha_of(c),
{
    c.is_alphabetic()
}

/// Relies on `char::is_whitespace`: whether the character has the
/// Unicode White_Space property, a function of the character alone.
#[verifier::external_body]
fn is_space_char(c: char) -> (b: bool)
    ensures
        b == is_space_of(c),
{
    c.is_whitespace()
}

/// Relies on `str::to_lowercase`: the lowercased copy of the text, a
/// function of the characters alone.
#[verifier::external_body]
fn lowercase(s: &str) -> (r: String)
    ensures
        r@ == lower_of(s@),
{
    s.to_lowercase()
}

/// Relies on `str::len`: the length of the text in bytes, which for
/// valid UTF-8 is the sum of the characters' UTF-8 widths.
#[verifier::external_body]
fn byte_len(s: &str) -> (l: usize)
    ensures
        l as nat == byte_pos(s@, s@.len() as int),
{
    s.len()
}

/// The UTF-8 width of a character.
fn char_width_x(c: char) -> (w: usize)
    ensures
        w == char_width(c),
{
    let u = c as u32;
    if u < 0x80 {
        1
    } else if u < 0x800 {
        2
    } else if u < 0x10000 {
        3
    } else {
        4
    }
}

/// The byte offset of character position `to`, continued from a known
/// offset at `from`.
fn advance_to(s: &str, from: usize, bfrom: usize, to: usize) -> (b: usize)
    requires
        from <= to <= s@.len(),
        bfrom as nat == byte_pos(s@, from as int),
        byte_pos(s@, s@.len() as int) <= usize::MAX,
    ensures
        b as nat == byte_pos(s@, to as int),
{
    let mut k = from;
    let mut b = bfrom;
    while k < to
        invariant
            from <= k <= to <= s@.len(),
            b as nat == byte_pos(s@, k as int),
            byte_pos(s@, s@.len() as int) <= usize::MAX,
        decreases to - k,
    {
        let w = char_width_x(s.get_char(k));
        proof {
            lemma_byte_pos_mono(s@, k + 1, s@.len() as int);
        }
        b = b + w;
        k += 1;
    }
    b
}

/// Whether a run of digits and radix points reads as a number.
fn check_number(s: &str) -> (b: bool)
    ensures
        b == valid_number(s@),
{
    let n = s.unicode_len();
    let mut dots: usize = 0;
    let mut digit = false;
    let mut i: usize = 0;
    while i < n
        invariant
            n == s@.len(),
            i <= n,
            dots <= i,
            dots == count_dots(s@.take(i as int)),
            digit == has_digit(s@.take(i as int)),
        decreases n - i,
    {
        let c = s.get_char(i);
        let ghost prefix = s@.take(i as int);
        if c == '.' {
            dots += 1;
        }
        let u = c as u32;
        let is_d = 48 <= u && u <= 57;
        let had = digit;
        if is_d {
            digit = true;
        }
        i += 1;
        proof {
            let next = s@.take(i as int);
            assert(next.drop_last() =~= prefix);
            assert(next.last() == s@[i - 1]);
            if is_d {
                assert(is_digit_c(next[i - 1]));
            } else if !had {
                assert forall|k: int| 0 <= k < next.len() implies !is_digit_c(next[k]) by {
                    if k < i - 1 {
                        assert(next[k] == prefix[k]);
                    }
                }
            } else {
                let k = choose|k: int| 0 <= k < prefix.len() && is_digit_c(prefix[k]);
                assert(is_digit_c(next[k]));
            }
        }
    }
    proof {
        assert(s@.take(n as int) =~= s@);
    }
    dots <= 1 && digit
}

/// The end of the numeric literal that starts at `start`.
fn scan_number(s: &str, start: usize) -> (j: usize)
    requires
        start <= s@.len(),
    ensures
        start <= j <= s@.len(),
        j == num_end(s@, start as int),
    {
    let n = s.unicode_len();
    let mut j = start;
    while j < n && is_num_char(s.get_char(j))
        invariant
            n == s@.len(),
            start <= j <= n,
            num_end(s@, start as int) == num_end(s@, j as int),
        decreases n - j,
    {
        j += 1;
    }
    j
}

/// The end of the identifier that starts at `start`.
fn scan_ident(s: &str, start: usize) -> (j: usize)
    requires
        start <= s@.len(),
    ensures
        start <= j <= s@.len(),
        j == ident_end(s@, start as int),
    {
    let n = s.unicode_len();
    let mut j = start;
    while j < n && is_alpha_char(s.get_char(j))
        invariant
            n == s@.len(),
            start <= j <= n,
            ident_end(s@, start as int) == ident_end(s@, j as int),
        decreases n - j,
    {
        j += 1;
    }
    j
}

/// The keyword table: the token an identifier's lowercased text
/// denotes.
fn keyword_lookup(low: String) -> (t: Token)
    ensures
        t@ == keyword_token(low@),
{
    if low == String::from_str("pi") {
        Token::Constant(Constant::Pi)
    } else if low == String::from_str("e") {
        Token::Constant(Constant::E)
    } else if low == String::from_str("sqrt") {
        Token::Function(Function::Sqrt)
    } else if low == String::from_str("sin") {
        Token::Function(Function::Sin)
    } else if low == String::from_str("cos") {
        Token::Function(Function::Cos)
    } else if low == String::from_str("tan") {
        Token::Function(Function::Tan)
    } else if low == String::from_str("log") {
        Token::Function(Function::Log)
    } else if low == String::from_str("abs") {
        Token::Function(Function::Abs)
    } else {
        Token::Identifier(low)
    }
}

/// Turns source text into tokens, or fails with the first offending
/// range: a character that starts no token, or a run of digits and
/// radix points that reads as no number.
pub fn tokenize(input: &str) -> (r: Result<Vec<SpannedToken>, TokenizeError>)
    ensures
        r is Ok ==> spec_tokenize(input@) == Ok::<Seq<STokV>, TokErrV>(toks_view((r->Ok_0)@)),
        r is Err ==> spec_tokenize(input@) == Err::<Seq<STokV>, TokErrV>((r->Err_0)@),
{
    let s = input;
    let n = s.unicode_len();
    let total = byte_len(s);
    let mut tokens: Vec<SpannedToken> = Vec::new();
    let mut i: usize = 0;
    let mut bpos: usize = 0;
    proof {
        assert(toks_view(tokens@) =~= Seq::<STokV>::empty());
        assert(Seq::<STokV>::empty() + spec_tokenize_at(s@, 0)->Ok_0 =~= spec_tokenize_at(
            s@,
            0,
        )->Ok_0);
    }
    while i < n
        invariant
            s@ == input@,
            n == s@.len(),
            i <= n,
            bpos as nat == byte_pos(s@, i as int),
            byte_pos(s@, n as int) <= usize::MAX,
            (match spec_tokenize_at(s@, i as int) {
                Ok(rest) => spec_tokenize(s@) == Ok::<Seq<STokV>, TokErrV>(
                    toks_view(tokens@) + rest,
                ),
                Err(e) => spec_tokenize(s@) == Err::<Seq<STokV>, TokErrV>(e),
            }),
        decreases n - i,
    {
        let c = s.get_char(i);
        let ghost toks_before = tokens@;
        let op: Option<Operator> = match c {
            '+' => Some(Operator::Plus),
            '-' => Some(Operator::Minus),
            '*' => Some(Operator::Star),
            '/' => Some(Operator::Slash),
            '%' => Some(Operator::Percent),
            '^' => Some(Operator::Caret),
            '(' => Some(Operator::LParen),
            ')' => Some(Operator::RParen),
            '|' => Some(Operator::Pipe),
            '=' => Some(Operator::Equals),
            ',' => Some(Operator::Comma),
            _ => None,
        };
        proof {
            assert(op == single_op(c));
            lemma_byte_pos_mono(s@, i + 1, n as int);
        }
        let w = char_width_x(c);
        if let Some(op) = op {
            let tok = SpannedToken {
                token: Token::Operator(op),
                span: Span { start: bpos, end: bpos + w },
            };
            tokens.push(tok);
            proof {
                lemma_toks_view_push(toks_before, tok);
                if spec_tokenize_at(s@, i + 1) is Ok {
                    assert(toks_view(toks_before) + (seq![tok@] + spec_tokenize_at(
                        s@,
                        i + 1,
                    )->Ok_0) =~= toks_view(tokens@) + spec_tokenize_at(s@, i + 1)->Ok_0);
                }
            }
            i += 1;
            bpos = bpos + w;
        } else if is_space_char(c) {
            i += 1;
            bpos = bpos + w;
        } else if is_num_char(c) {
            let j = scan_number(s, i);
            proof {
                assert(num_end(s@, i as int) == num_end(s@, i + 1));
                lemma_num_end_ge(s@, i + 1);
                assert(j > i);
            }
            let bend = advance_to(s, i, bpos, j);
            let text = s.substring_char(i, j).to_owned();
            if check_number(text.as_str()) {
                let tok = SpannedToken {
                    token: Token::Number(text),
                    span: Span { start: bpos, end: bend },
                };
                tokens.push(tok);
                proof {
                    lemma_toks_view_push(toks_before, tok);
                    if spec_tokenize_at(s@, j as int) is Ok {
                        assert(toks_view(toks_before) + (seq![tok@] + spec_tokenize_at(
                            s@,
                            j as int,
                        )->Ok_0) =~= toks_view(tokens@) + spec_tokenize_at(s@, j as int)->Ok_0);
                    }
                }
                i = j;
                bpos = bend;
            } else {
                let err = TokenizeError {
                    code: LexerError::InvalidNumber(text),
                    span: Span { start: bpos, end: bend },
                };
                proof {
                    assert(spec_tokenize_at(s@, i as int) == Err::<Seq<STokV>, TokErrV>(err@));
                }
                return Err(err);
            }
        } else if is_alpha_char(c) {
            let j = scan_ident(s, i);
            proof {
                assert(ident_end(s@, i as int) == ident_end(s@, i + 1));
                lemma_ident_end_ge(s@, i + 1);
                assert(j > i);
            }
            let bend = advance_to(s, i, bpos, j);
            let low = lowercase(s.substring_char(i, j));
            let tok = SpannedToken {
                token: keyword_lookup(low),
                span: Span { start: bpos, end: bend },
            };
            tokens.push(tok);
            proof {
                lemma_toks_view_push(toks_before, tok);
                if spec_tokenize_at(s@, j as int) is Ok {
                    assert(toks_view(toks_before) + (seq![tok@] + spec_tokenize_at(
                        s@,
                        j as int,
                    )->Ok_0) =~= toks_view(tokens@) + spec_tokenize_at(s@, j as int)->Ok_0);
                }
            }
            i = j;
            bpos = bend;
        } else {
            let err = TokenizeError {
                code: LexerError::InvalidCharacter(c),
                span: Span { start: bpos, end: bpos + w },
            };
            proof {
                assert(!(single_op(c) is Some));
                assert(!is_space_of(c));
                assert(!is_num_c(c));
                assert(!is_alpha_of(c));
                assert(spec_tokenize_at(s@, i as int) == Err::<Seq<STokV>, TokErrV>(err@));
            }
            return Err(err);
        }
    }
    proof {
        assert(spec_tokenize_at(s@, i as int) == Ok::<Seq<STokV>, TokErrV>(Seq::<STokV>::empty()));
        assert(toks_view(tokens@) + Seq::<STokV>::empty() =~= toks_view(tokens@));
    }
    Ok(tokens)
}

/// Scanning never moves backward.
proof fn lemma_num_end_ge(s: Seq<char>, i: int)
    requires
        0 <= i,
    ensures
        num_end(s, i) >= i,
    decreases s.len() - i,
{
    if 0 <= i < s.len() && is_num_c(s[i]) {
        lemma_num_end_ge(s, i + 1);
    }
}

proof fn lemma_ident_end_ge(s: Seq<char>, i: int)
    requires
        0 <= i,
    ensures
        ident_end(s, i) >= i,
    decreases s.len() - i,
{
    if 0 <= i < s.len() && is_alpha_of(s[i]) {
        lemma_ident_end_ge(s, i + 1);
    }
}

/// Pushing a token onto a vector appends its view to the view of the
/// vector.
proof fn lemma_toks_view_push(v: Seq<SpannedToken>, t: SpannedToken)
    ensures
        toks_view(v.push(t)) =~= toks_view(v).push(t@),
{
}

} // verus!
