//! A lexer for a small high-level language: symbols, keywords, identifiers,
//! numbers and string constants, read from a text one token at a time.

use vstd::prelude::*;
use crate::decimal::{is_digit, parse_int, read_int};
use crate::text::{blank, find, is_blank, is_text, lemma_find, slice, string_of, to_chars};

verus! {

/// Whether a character is a letter or a number, as Unicode sorts
/// characters.
pub uninterp spec fn alphanumeric(c: char) -> bool;

/// `char::is_alphanumeric` tells whether a character has the Unicode
/// property `Alphabetic` or is of one of the number categories; the answer
/// depends on the character alone.
pub assume_specification[ char::is_alphanumeric ](c: char) -> (r: bool)
    ensures
        r == alphanumeric(c),
;

/// One token.
#[derive(Debug, PartialEq, Eq, Clone)]
pub enum Token {
    Symbol(char),
    Keyword(String),
    Identifier(String),
    IntConst(u16),
    StringConst(String),
}

/// What a token holds, with each text as its characters.
pub enum TokenView {
    Symbol(char),
    Keyword(Seq<char>),
    Identifier(Seq<char>),
    IntConst(u16),
    StringConst(Seq<char>),
}

impl View for Token {
    type V = TokenView;

    open spec fn view(&self) -> TokenView {
        match self {
            Token::Symbol(c) => TokenView::Symbol(*c),
            Token::Keyword(w) => TokenView::Keyword(w@),
            Token::Identifier(w) => TokenView::Identifier(w@),
            Token::IntConst(n) => TokenView::IntConst(*n),
            Token::StringConst(w) => TokenView::StringConst(w@),
        }
    }
}

/// A number begins where a token begins, and the word there is no number
/// below 65536.
#[derive(Debug, PartialEq, Eq, Copy, Clone, Structural)]
pub struct InvalidInt;

/// Whether a word is a keyword.
pub open spec fn keyword(w: Seq<char>) -> bool {
    w == "if"@ || w == "else"@ || w == "do"@ || w == "let"@
}

/// Whether a character is skipped between tokens: a space, a line feed or a
/// tab.
pub open spec fn skipped(c: char) -> bool {
    c == ' ' || c == '\n' || c == '\t'
}

/// Whether a character is a token by itself: every character that is
/// neither a letter nor a number, and the underscore.
pub open spec fn symbol(c: char) -> bool {
    !alphanumeric(c) || c == '_'
}

/// Whether a character belongs to a word.
pub open spec fn in_word(c: char) -> bool {
    !symbol(c) && !is_blank(c)
}

/// The length of the longest run of characters of one kind with which a
/// text begins.
pub open spec fn run_len(s: Seq<char>, kind: spec_fn(char) -> bool) -> nat
    decreases s.len(),
{
    if s.len() == 0 || !kind(s[0]) {
        0
    } else {
        1 + run_len(s.drop_first(), kind)
    }
}

/// The run at the beginning of a text ends at the first character of
/// another kind, or with the text.
pub proof fn lemma_run_len(s: Seq<char>, kind: spec_fn(char) -> bool, k: int)
    requires
        0 <= k <= s.len(),
        forall|j: int| 0 <= j < k ==> kind(s[j]),
        k == s.len() || !kind(s[k]),
    ensures
        run_len(s, kind) == k,
    decreases k,
{
    if k > 0 {
        lemma_run_len(s.drop_first(), kind, k - 1);
    }
}

/// The number that a word denotes, if it denotes one below 65536: decimal
/// digits, with or without `+` before them.
pub open spec fn parse_u16(w: Seq<char>) -> Option<u16> {
    if w.len() > 0 && w[0] == '-' {
        None
    } else {
        match parse_int(w, 0, u16::MAX as int) {
            Some(n) => Some(n as u16),
            None => None,
        }
    }
}

/// A token, or the end of the text, or an error, and the text that is left
/// behind it.
pub struct Step {
    pub token: Result<Option<TokenView>, InvalidInt>,
    pub rest: Seq<char>,
}

/// The word with which a text begins, and what follows it.
pub open spec fn word(s: Seq<char>) -> (Seq<char>, Seq<char>) {
    let n = run_len(s, |c: char| in_word(c)) as int;
    (s.take(n), s.skip(n))
}

/// The string constant with which a text begins, behind its opening quote:
/// all up to the next quote, which is left out and passed over, or up to
/// the end of the text.
pub open spec fn string_const(s: Seq<char>) -> (Seq<char>, Seq<char>) {
    let n = find(s, '"') as int;
    (
        s.take(n),
        if n < s.len() {
            s.skip(n + 1)
        } else {
            Seq::empty()
        },
    )
}

/// The first token of a text. Spaces, line feeds and tabs before it are
/// skipped. A quote opens a string constant; any other symbol is a token by
/// itself; a digit opens a number, which is the whole word there; any other
/// word is a keyword or an identifier.
pub open spec fn next_token(text: Seq<char>) -> Step {
    let s = text.skip(run_len(text, |c: char| skipped(c)) as int);
    if s.len() == 0 {
        Step { token: Ok(None), rest: s }
    } else if s[0] == '"' {
        let (w, rest) = string_const(s.skip(1));
        Step { token: Ok(Some(TokenView::StringConst(w))), rest }
    } else if symbol(s[0]) {
        Step { token: Ok(Some(TokenView::Symbol(s[0]))), rest: s.skip(1) }
    } else {
        let (w, rest) = word(s);
        if is_digit(s[0]) {
            match parse_u16(w) {
                Some(n) => Step { token: Ok(Some(TokenView::IntConst(n))), rest },
                None => Step { token: Err(InvalidInt), rest },
            }
        } else if keyword(w) {
            Step { token: Ok(Some(TokenView::Keyword(w))), rest }
        } else {
            Step { token: Ok(Some(TokenView::Identifier(w))), rest }
        }
    }
}

/// A text and a place in it, up to which it has been read.
pub struct Reader {
    chars: Vec<char>,
    pos: usize,
}

impl View for Reader {
    type V = Seq<char>;

    /// What is left to read.
    closed spec fn view(&self) -> Seq<char> {
        self.chars@.skip(self.pos as int)
    }
}

impl Reader {
    /// Whether the place lies in the text or at its end.
    pub closed spec fn wf(&self) -> bool {
        self.pos <= self.chars.len()
    }

    /// A reader at the beginning of a text.
    pub fn new(s: &str) -> (r: Reader)
        ensures
            r.wf(),
            r@ == s@,
    {
        let r = Reader { chars: to_chars(s), pos: 0 };
        assert(r.chars@.skip(0) == r.chars@);
        r
    }

    /// The next character, which stays where it is.
    pub fn peek(&self) -> (r: Option<char>)
        requires
            self.wf(),
        ensures
            r == (if self@.len() > 0 {
                Some(self@[0])
            } else {
                None
            }),
    {
        if self.pos < self.chars.len() {
            Some(self.chars[self.pos])
        } else {
            None
        }
    }

    /// Passes over the next `n` characters and hands them out.
    fn take(&mut self, n: usize) -> (r: Vec<char>)
        requires
            old(self).wf(),
            n <= old(self)@.len(),
        ensures
            final(self).wf(),
            r@ == old(self)@.take(n as int),
            final(self)@ == old(self)@.skip(n as int),
    {
        let r = slice(&self.chars, self.pos, self.pos + n);
        self.pos = self.pos + n;
        assert(r@ == old(self)@.take(n as int));
        assert(self@ == old(self)@.skip(n as int));
        r
    }

    /// How many spaces, line feeds and tabs come next.
    fn skipped_run(&self) -> (n: usize)
        requires
            self.wf(),
        ensures
            n <= self@.len(),
            n == run_len(self@, |c: char| skipped(c)),
    {
        let mut n: usize = 0;
        while is_skipped(self.peek_at(n))
            invariant
                self.wf(),
                n <= self@.len(),
                forall|j: int| 0 <= j < n ==> skipped(self@[j]),
            decreases self@.len() - n,
        {
            n += 1;
        }
        proof {
            lemma_run_len(self@, |c: char| skipped(c), n as int);
        }
        n
    }

    /// How many characters of a word come next.
    fn word_run(&self) -> (n: usize)
        requires
            self.wf(),
        ensures
            n <= self@.len(),
            n == run_len(self@, |c: char| in_word(c)),
    {
        let mut n: usize = 0;
        while is_in_word(self.peek_at(n))
            invariant
                self.wf(),
                n <= self@.len(),
                forall|j: int| 0 <= j < n ==> in_word(self@[j]),
            decreases self@.len() - n,
        {
            n += 1;
        }
        proof {
            lemma_run_len(self@, |c: char| in_word(c), n as int);
        }
        n
    }
}

fn is_skipped(c: Option<char>) -> (r: bool)
    ensures
        r == (c is Some && skipped(c->0)),
{
    match c {
        Some(c) => c == ' ' || c == '\n' || c == '\t',
        None => false,
    }
}

fn is_in_word(c: Option<char>) -> (r: bool)
    ensures
        r == (c is Some && in_word(c->0)),
{
    match c {
        Some(c) => !is_symbol(c) && !blank(c),
        None => false,
    }
}

/// Whether a character is a symbol, given whether it is a letter or a
/// number.
pub fn symbol_given(alnum: bool, c: char) -> (r: bool)
    ensures
        r == (!alnum || c == '_'),
{
    !alnum || c == '_'
}

/// Whether a word is a keyword.
pub fn is_keyword(w: &str) -> (r: bool)
    ensures
        r == keyword(w@),
{
    let v = to_chars(w);
    is_text(&v, "if") || is_text(&v, "else") || is_text(&v, "do") || is_text(&v, "let")
}

/// Passes over the spaces, line feeds and tabs that come next.
pub fn skip_whitespace(rdr: &mut Reader)
    requires
        old(rdr).wf(),
    ensures
        final(rdr).wf(),
        final(rdr)@ == old(rdr)@.skip(run_len(old(rdr)@, |c: char| skipped(c)) as int),
{
    let n = rdr.skipped_run();
    let _ = rdr.take(n);
}

/// Whether a character is a token by itself.
pub fn is_symbol(c: char) -> (r: bool)
    ensures
        r == symbol(c),
{
    symbol_given(c.is_alphanumeric(), c)
}

/// Reads the word that comes next, which is empty unless a character of a
/// word comes next.
pub fn get_word(rdr: &mut Reader) -> (w: String)
    requires
        old(rdr).wf(),
    ensures
        final(rdr).wf(),
        (w@, final(rdr)@) == word(old(rdr)@),
{
    let n = rdr.word_run();
    let v = rdr.take(n);
    string_of(&v)
}

/// Reads the word that comes next as a number.
pub fn get_int(rdr: &mut Reader) -> (r: Option<u16>)
    requires
        old(rdr).wf(),
    ensures
        final(rdr).wf(),
        r == parse_u16(word(old(rdr)@).0),
        final(rdr)@ == word(old(rdr)@).1,
{
    let n = rdr.word_run();
    let v = rdr.take(n);
    if v.len() > 0 && v[0] == '-' {
        None
    } else {
        match read_int(&v, 0, 65535) {
            Some(x) => Some(x as u16),
            None => None,
        }
    }
}

/// Reads a string constant whose opening quote has been passed.
pub fn get_string_const(rdr: &mut Reader) -> (w: String)
    requires
        old(rdr).wf(),
    ensures
        final(rdr).wf(),
        (w@, final(rdr)@) == string_const(old(rdr)@),
{
    let mut n: usize = 0;
    while !rdr.ends_at(n)
        invariant
            rdr.wf(),
            *rdr == *old(rdr),
            n <= rdr@.len(),
            forall|j: int| 0 <= j < n ==> rdr@[j] != '"',
        decreases rdr@.len() - n,
    {
        n += 1;
    }
    proof {
        lemma_find(rdr@, '"', n as int);
    }
    let closed = Reader::peek_at(rdr, n).is_some();
    let v = rdr.take(n);
    if closed {
        let _ = rdr.take(1);
    } else {
        assert(rdr@ == Seq::<char>::empty());
    }
    string_of(&v)
}

impl Reader {
    fn ends_at(&self, n: usize) -> (r: bool)
        requires
            self.wf(),
            n <= self@.len(),
        ensures
            r == (n == self@.len() || self@[n as int] == '"'),
    {
        match self.peek_at(n) {
            Some(c) => c == '"',
            None => true,
        }
    }

    fn peek_at(&self, n: usize) -> (r: Option<char>)
        requires
            self.wf(),
            n <= self@.len(),
        ensures
            r == (if n < self@.len() {
                Some(self@[n as int])
            } else {
                None
            }),
    {
        if self.pos + n < self.chars.len() {
            Some(self.chars[self.pos + n])
        } else {
            None
        }
    }
}

/// What reading a token gave, with each text as its characters.
pub open spec fn token_view(r: Result<Option<Token>, InvalidInt>) -> Result<
    Option<TokenView>,
    InvalidInt,
> {
    match r {
        Ok(None) => Ok(None),
        Ok(Some(t)) => Ok(Some(t@)),
        Err(e) => Err(e),
    }
}

/// Reads the next token.
pub fn get_token(rdr: &mut Reader) -> (r: Result<Option<Token>, InvalidInt>)
    requires
        old(rdr).wf(),
    ensures
        final(rdr).wf(),
        (Step { token: token_view(r), rest: final(rdr)@ }) == next_token(old(rdr)@),
{
    skip_whitespace(rdr);
    match rdr.peek() {
        None => {
            assert(rdr@.len() == 0);
            Ok(None)
        },
        Some(c) => {
            if c == '"' {
                let _ = rdr.take(1);
                Ok(Some(Token::StringConst(get_string_const(rdr))))
            } else if is_symbol(c) {
                let _ = rdr.take(1);
                Ok(Some(Token::Symbol(c)))
            } else if '0' <= c && c <= '9' {
                match get_int(rdr) {
                    Some(n) => Ok(Some(Token::IntConst(n))),
                    None => Err(InvalidInt),
                }
            } else {
                let w = get_word(rdr);
                if is_keyword(w.as_str()) {
                    Ok(Some(Token::Keyword(w)))
                } else {
                    Ok(Some(Token::Identifier(w)))
                }
            }
        },
    }
}

} // verus!
