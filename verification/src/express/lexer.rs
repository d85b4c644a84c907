//! The lexer: from characters to tokens, one token per call.
//!
//! Blanks (the space and the line feed) separate tokens and produce none. A
//! token is a single symbol, or the longest run of digits and points that
//! starts where the lexer stands; such a run is a [`Token::Number`] when it is a
//! decimal literal and an error when it is not. Past the last token the lexer
//! answers [`Token::EOF`], as often as it is asked.

use vstd::prelude::*;
use vstd::string::StringExecFns;
use crate::express::error::{CalError, CalErrorView, LexerError, LexerErrorView, result_view};
use crate::express::number::{Decimal, is_decimal, is_number_char, number_char};

verus! {

/// The symbols:
///
/// `OpenPh` is `(`, `ClosePh` is `)`, `Plus` is `+`, `Minus` is `-`, `Multiply`
/// is `*`, `Division` is `/`, `Exponential` is `^`, `Percent` is `%`.
#[derive(Debug, Clone, PartialEq)]
pub enum Token {
    OpenPh,
    ClosePh,
    Plus,
    Minus,
    Multiply,
    Division,
    Exponential,
    Percent,
    Number(Decimal),
    EOF,
}

/// Mathematical model of a [`Token`]: a number is the text of its literal.
pub enum TokenView {
    OpenPh,
    ClosePh,
    Plus,
    Minus,
    Multiply,
    Division,
    Exponential,
    Percent,
    Number(Seq<char>),
    EOF,
}

impl View for Token {
    type V = TokenView;

    open spec fn view(&self) -> TokenView {
        match self {
            Token::OpenPh => TokenView::OpenPh,
            Token::ClosePh => TokenView::ClosePh,
            Token::Plus => TokenView::Plus,
            Token::Minus => TokenView::Minus,
            Token::Multiply => TokenView::Multiply,
            Token::Division => TokenView::Division,
            Token::Exponential => TokenView::Exponential,
            Token::Percent => TokenView::Percent,
            Token::Number(d) => TokenView::Number(d@),
            Token::EOF => TokenView::EOF,
        }
    }
}

impl TokenView {
    /// The name under which a token appears in a diagnostic.
    pub open spec fn describe(self) -> Seq<char> {
        match self {
            TokenView::OpenPh => "OpenPh"@,
            TokenView::ClosePh => "ClosePh"@,
            TokenView::Plus => "Plus"@,
            TokenView::Minus => "Minus"@,
            TokenView::Multiply => "Multiply"@,
            TokenView::Division => "Division"@,
            TokenView::Exponential => "Exponential"@,
            TokenView::Percent => "Percent"@,
            TokenView::Number(text) => "Number("@ + text + ")"@,
            TokenView::EOF => "EOF"@,
        }
    }
}

impl Token {
    /// The name under which the token appears in a diagnostic; a number
    /// appears with its literal as it was written.
    pub fn describe(&self) -> (s: String)
        ensures
            s@ == self@.describe(),
    {
        match self {
            Token::OpenPh => String::from_str("OpenPh"),
            Token::ClosePh => String::from_str("ClosePh"),
            Token::Plus => String::from_str("Plus"),
            Token::Minus => String::from_str("Minus"),
            Token::Multiply => String::from_str("Multiply"),
            Token::Division => String::from_str("Division"),
            Token::Exponential => String::from_str("Exponential"),
            Token::Percent => String::from_str("Percent"),
            Token::Number(d) => {
                let mut s = String::from_str("Number(");
                s.append(d.as_str());
                s.append(")");
                s
            },
            Token::EOF => String::from_str("EOF"),
        }
    }
}

/// The characters that numbers are written with.
pub const NUMBER_CHARS: &'static str = "0123456789.";

/// The characters that stand between numbers: the symbols and the blanks.
pub const OPERATOR_CHARS: &'static str = "()+-*/^% \n";

/// A character is a digit or the point exactly when it stands in
/// [`NUMBER_CHARS`], and a symbol or a blank exactly when it stands in
/// [`OPERATOR_CHARS`].
pub proof fn lemma_alphabet(c: char)
    ensures
        is_number_char(c) <==> NUMBER_CHARS@.contains(c),
        (symbol(c) is Some || is_blank(c)) <==> OPERATOR_CHARS@.contains(c),
{
    reveal_strlit("0123456789.");
    reveal_strlit("()+-*/^% \n");
    let n = NUMBER_CHARS@;
    let o = OPERATOR_CHARS@;
    if is_number_char(c) {
        if c == '.' {
            assert(n[10] == c);
        } else {
            let i = c as int - '0' as int;
            assert(n[i] == c);
        }
    }
    if symbol(c) is Some || is_blank(c) {
        let i: int = if c == '(' {
            0
        } else if c == ')' {
            1
        } else if c == '+' {
            2
        } else if c == '-' {
            3
        } else if c == '*' {
            4
        } else if c == '/' {
            5
        } else if c == '^' {
            6
        } else if c == '%' {
            7
        } else if c == ' ' {
            8
        } else {
            9
        };
        assert(o[i] == c);
    }
}

/// A character that separates tokens.
pub open spec fn is_blank(c: char) -> bool {
    c == ' ' || c == '\n'
}

/// The token that the single character `c` stands for, if it stands for one.
pub open spec fn symbol(c: char) -> Option<TokenView> {
    if c == '(' {
        Some(TokenView::OpenPh)
    } else if c == ')' {
        Some(TokenView::ClosePh)
    } else if c == '+' {
        Some(TokenView::Plus)
    } else if c == '-' {
        Some(TokenView::Minus)
    } else if c == '*' {
        Some(TokenView::Multiply)
    } else if c == '/' {
        Some(TokenView::Division)
    } else if c == '^' {
        Some(TokenView::Exponential)
    } else if c == '%' {
        Some(TokenView::Percent)
    } else {
        None
    }
}

/// The first position at or after `i` at which `s` holds no blank; the length
/// of `s` when only blanks follow.
pub open spec fn skip_blanks(s: Seq<char>, i: int) -> int
    decreases s.len() - i,
{
    if 0 <= i < s.len() && is_blank(s[i]) {
        skip_blanks(s, i + 1)
    } else {
        i
    }
}

/// The first position at or after `i` at which `s` holds neither a digit nor
/// a point; the length of `s` when only such characters follow.
pub open spec fn number_end(s: Seq<char>, i: int) -> int
    decreases s.len() - i,
{
    if 0 <= i < s.len() && is_number_char(s[i]) {
        number_end(s, i + 1)
    } else {
        i
    }
}

/// What one step of the lexer yields: a token or an error, and the position
/// behind it.
pub struct Scan {
    pub item: Result<TokenView, CalErrorView>,
    pub next: int,
}

/// One step of the lexer on `s` from position `i`.
pub open spec fn scan(s: Seq<char>, i: int) -> Scan {
    let j = skip_blanks(s, i);
    if !(0 <= j < s.len()) {
        Scan { item: Ok(TokenView::EOF), next: j }
    } else if is_number_char(s[j]) {
        let k = number_end(s, j);
        let text = s.subrange(j, k);
        if is_decimal(text) {
            Scan { item: Ok(TokenView::Number(text)), next: k }
        } else {
            Scan { item: Err(CalErrorView::LexError(LexerErrorView::InvalidNumber(text))), next: k }
        }
    } else {
        match symbol(s[j]) {
            Some(t) => Scan { item: Ok(t), next: j + 1 },
            None => Scan {
                item: Err(CalErrorView::LexError(LexerErrorView::UnknowChar(s[j]))),
                next: j + 1,
            },
        }
    }
}

/// Blanks are skipped one by one and never past the end.
pub proof fn lemma_skip_blanks(s: Seq<char>, i: int)
    requires
        0 <= i <= s.len(),
    ensures
        i <= skip_blanks(s, i) <= s.len(),
        forall|k: int| i <= k < skip_blanks(s, i) ==> is_blank(#[trigger] s[k]),
        skip_blanks(s, i) < s.len() ==> !is_blank(s[skip_blanks(s, i)]),
    decreases s.len() - i,
{
    if i < s.len() && is_blank(s[i]) {
        lemma_skip_blanks(s, i + 1);
    }
}

/// A run of digits and points ends at the first character that is neither, or
/// at the end.
pub proof fn lemma_number_end(s: Seq<char>, i: int)
    requires
        0 <= i <= s.len(),
    ensures
        i <= number_end(s, i) <= s.len(),
        forall|k: int| i <= k < number_end(s, i) ==> is_number_char(#[trigger] s[k]),
        number_end(s, i) < s.len() ==> !is_number_char(s[number_end(s, i)]),
    decreases s.len() - i,
{
    if i < s.len() && is_number_char(s[i]) {
        lemma_number_end(s, i + 1);
    }
}

/// A run of digits and points that ends at `to` is read up to `to`.
pub proof fn lemma_number_run(s: Seq<char>, from: int, to: int)
    requires
        0 <= from <= to <= s.len(),
        forall|k: int| from <= k < to ==> is_number_char(#[trigger] s[k]),
        to < s.len() ==> !is_number_char(s[to]),
    ensures
        number_end(s, from) == to,
    decreases to - from,
{
    if from < to {
        lemma_number_run(s, from + 1, to);
    }
}

/// A step of the lexer stays inside the text, moves on unless the text is
/// used up, and stands at the end once it has said so.
pub proof fn lemma_scan_advances(s: Seq<char>, i: int)
    requires
        0 <= i <= s.len(),
    ensures
        i <= scan(s, i).next <= s.len(),
        scan(s, i).item != Ok::<TokenView, CalErrorView>(TokenView::EOF) ==> i < scan(s, i).next,
        scan(s, i).item == Ok::<TokenView, CalErrorView>(TokenView::EOF) ==> scan(s, i).next
            == s.len(),
{
    lemma_skip_blanks(s, i);
    let j = skip_blanks(s, i);
    if j < s.len() {
        lemma_number_end(s, j);
    }
}

/// All the tokens of `s` in the order in which they stand, or the first error
/// that the lexer meets.
pub open spec fn tokenized(s: Seq<char>) -> Result<Seq<TokenView>, CalErrorView>
    decreases s.len(),
{
    let step = scan(s, 0);
    match step.item {
        Err(e) => Err(e),
        Ok(TokenView::EOF) => Ok(Seq::empty()),
        Ok(t) => {
            proof {
                lemma_scan_advances(s, 0);
            }
            match tokenized(s.skip(step.next)) {
                Ok(rest) => Ok(seq![t] + rest),
                Err(e) => Err(e),
            }
        },
    }
}

/// The models of the tokens of `v`, in order.
pub open spec fn token_views(v: Seq<Token>) -> Seq<TokenView> {
    v.map_values(|t: Token| t@)
}

/// Reading from position `p + i` of `s` is reading from position `i` of what
/// `s` holds from `p` on.
pub proof fn lemma_scan_skip(s: Seq<char>, p: int, i: int)
    requires
        0 <= p,
        0 <= i,
        p + i <= s.len(),
    ensures
        scan(s.skip(p), i).item == scan(s, p + i).item,
        scan(s.skip(p), i).next + p == scan(s, p + i).next,
{
    let t = s.skip(p);
    lemma_skip_blanks_skip(s, p, i);
    lemma_skip_blanks(s, p + i);
    let j = skip_blanks(t, i);
    if j < t.len() {
        lemma_number_end_skip(s, p, j);
        lemma_number_end(s, p + j);
        let k = number_end(t, j);
        assert(t.subrange(j, k) =~= s.subrange(p + j, p + k));
    }
}

proof fn lemma_skip_blanks_skip(s: Seq<char>, p: int, i: int)
    requires
        0 <= p,
        0 <= i,
        p + i <= s.len(),
    ensures
        skip_blanks(s.skip(p), i) + p == skip_blanks(s, p + i),
    decreases s.len() - p - i,
{
    if p + i < s.len() && is_blank(s[p + i]) {
        lemma_skip_blanks_skip(s, p, i + 1);
    }
}

proof fn lemma_number_end_skip(s: Seq<char>, p: int, i: int)
    requires
        0 <= p,
        0 <= i,
        p + i <= s.len(),
    ensures
        number_end(s.skip(p), i) + p == number_end(s, p + i),
    decreases s.len() - p - i,
{
    if p + i < s.len() && is_number_char(s[p + i]) {
        lemma_number_end_skip(s, p, i + 1);
    }
}

/// Whether `c` separates tokens.
pub fn blank(c: char) -> (r: bool)
    ensures
        r == is_blank(c),
{
    c == ' ' || c == '\n'
}

/// A lexer over a text. Its model is the part of the text not yet read.
pub struct Lexer {
    src: Vec<char>,
    pos: usize,
}

impl View for Lexer {
    type V = Seq<char>;

    closed spec fn view(&self) -> Seq<char> {
        self.src@.skip(self.pos as int)
    }
}

impl Lexer {
    #[verifier::type_invariant]
    spec fn well_formed(self) -> bool {
        self.pos <= self.src.len()
    }

    /// A lexer that stands at the start of `chars`.
    pub fn new(chars: Vec<char>) -> (r: Self)
        ensures
            r@ == chars@,
    {
        Lexer { src: chars, pos: 0 }
    }

    /// Reads the next token: skips the blanks, then takes a symbol or the
    /// longest run of digits and points. An unknown character is consumed
    /// with the error it causes, and so is a run that is no literal.
    pub fn read(&mut self) -> (r: Result<Token, CalError>)
        ensures
            result_view(r) == scan(old(self)@, 0).item,
            final(self)@ == old(self)@.skip(scan(old(self)@, 0).next),
    {
        proof {
            use_type_invariant(&*self);
            lemma_scan_skip(self.src@, self.pos as int, 0);
            lemma_skip_blanks(self.src@, self.pos as int);
        }
        let ghost start = self.pos as int;
        let n = self.src.len();
        while self.pos < n && blank(self.src[self.pos])
            invariant
                n == self.src.len(),
                self.src == old(self).src,
                start <= self.pos <= n,
                skip_blanks(self.src@, self.pos as int) == skip_blanks(self.src@, start),
            decreases n - self.pos,
        {
            self.pos = self.pos + 1;
        }
        assert(self.pos == skip_blanks(self.src@, start));
        assert(old(self)@.skip(self.pos - start) =~= self.src@.skip(self.pos as int));
        if self.pos >= n {
            return Ok(Token::EOF);
        }
        let ch = self.src[self.pos];
        let ghost first = self.pos as int;
        self.pos = self.pos + 1;
        assert(old(self)@.skip(self.pos - start) =~= self.src@.skip(self.pos as int));
        if number_char(ch) {
            let mut buf = String::new();
            buf.push(ch);
            while self.pos < n && number_char(self.src[self.pos])
                invariant
                    n == self.src.len(),
                    self.src == old(self).src,
                    0 <= first < self.pos <= n,
                    number_end(self.src@, self.pos as int) == number_end(self.src@, first),
                    buf@ == self.src@.subrange(first, self.pos as int),
                decreases n - self.pos,
            {
                buf.push(self.src[self.pos]);
                self.pos = self.pos + 1;
                assert(buf@ =~= self.src@.subrange(first, self.pos as int));
            }
            assert(old(self)@.skip(self.pos - start) =~= self.src@.skip(self.pos as int));
            match Decimal::from_string(buf) {
                Ok(d) => Ok(Token::Number(d)),
                Err(text) => CalError::lex(LexerError::InvalidNumber(text)),
            }
        } else {
            match ch {
                '(' => Ok(Token::OpenPh),
                ')' => Ok(Token::ClosePh),
                '+' => Ok(Token::Plus),
                '-' => Ok(Token::Minus),
                '*' => Ok(Token::Multiply),
                '/' => Ok(Token::Division),
                '^' => Ok(Token::Exponential),
                '%' => Ok(Token::Percent),
                _ => CalError::lex(LexerError::UnknowChar(ch)),
            }
        }
    }
}

impl Lexer {
    /// Reads the text to its end: all its tokens, or the first error.
    pub fn collect(self) -> (r: Result<Vec<Token>, CalError>)
        ensures
            match r {
                Ok(v) => tokenized(self@) == Ok::<Seq<TokenView>, CalErrorView>(token_views(v@)),
                Err(e) => tokenized(self@) == Err::<Seq<TokenView>, CalErrorView>(e@),
            },
    {
        let ghost whole = self@;
        let mut lexer = self;
        let mut tokens: Vec<Token> = Vec::new();
        assert(token_views(tokens@) + Seq::<TokenView>::empty() =~= token_views(tokens@));
        loop
            invariant
                whole == self@,
                match tokenized(lexer@) {
                    Ok(rest) => tokenized(whole) == Ok::<Seq<TokenView>, CalErrorView>(
                        token_views(tokens@) + rest,
                    ),
                    Err(e) => tokenized(whole) == Err::<Seq<TokenView>, CalErrorView>(e),
                },
            decreases lexer@.len(),
        {
            let ghost before = lexer@;
            let ghost seen = tokens@;
            proof {
                lemma_scan_advances(before, 0);
            }
            match lexer.read() {
                Err(e) => {
                    return Err(e);
                },
                Ok(Token::EOF) => {
                    assert(token_views(tokens@) + Seq::<TokenView>::empty() =~= token_views(
                        tokens@,
                    ));
                    return Ok(tokens);
                },
                Ok(token) => {
                    tokens.push(token);
                    proof {
                        assert(token_views(tokens@) =~= token_views(seen).push(token@));
                        match tokenized(lexer@) {
                            Ok(rest) => {
                                assert(token_views(seen) + (seq![token@] + rest) =~= token_views(
                                    tokens@,
                                ) + rest);
                            },
                            Err(e) => {},
                        }
                    }
                },
            }
        }
    }
}

/// The tokens of the text `expr_str`, or the first error that the lexer meets.
pub fn tokenize(expr_str: &str) -> (r: Result<Vec<Token>, CalError>)
    ensures
        match r {
            Ok(v) => tokenized(expr_str@) == Ok::<Seq<TokenView>, CalErrorView>(token_views(v@)),
            Err(e) => tokenized(expr_str@) == Err::<Seq<TokenView>, CalErrorView>(e@),
        },
{
    Lexer::from(expr_str).collect()
}

/// The characters of `text`, in order.
pub fn chars_of(text: &str) -> (r: Vec<char>)
    ensures
        r@ == text@,
{
    let mut chars: Vec<char> = Vec::new();
    for c in it: text.chars()
        invariant
            it.seq() == text@,
            chars@ == text@.take(it.index()),
    {
        chars.push(c);
        assert(chars@ =~= text@.take(it.index() + 1));
    }
    assert(chars@ =~= text@);
    chars
}

impl<'a> From<&'a str> for Lexer {
    /// A lexer that stands at the start of `value`.
    fn from(value: &'a str) -> (r: Self)
        ensures
            r@ == value@,
    {
        Lexer::new(chars_of(value))
    }
}

impl<'a> vstd::std_specs::convert::FromSpecImpl<&'a str> for Lexer {
    open spec fn obeys_from_spec() -> bool {
        false
    }

    open spec fn from_spec(v: &'a str) -> Self {
        arbitrary()
    }
}

} // verus!
