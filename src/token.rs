use vstd::prelude::*;

verus! {

/// The kind of a token.
#[allow(non_camel_case_types)]
#[derive(Debug, Clone, Copy, PartialEq, Eq, Structural)]
pub enum TokenType {
    ILLEGAL,
    EOF,
    IDENT,
    INT,
    ASSIGN,
    PLUS,
    MINUS,
    BANG,
    ASTERISK,
    SLASH,
    LT,
    GT,
    COMMA,
    SEMICOLON,
    LPAREN,
    RPAREN,
    LBRACE,
    RBRACE,
    FUNCTION,
    LET,
    TRUE,
    FALSE,
    IF,
    ELSE,
    RETURN,
    EQ,
    NEQ,
}

/// A token: its kind and the text it was read from.
#[derive(Debug, Clone)]
pub struct Token {
    pub token_type: TokenType,
    pub literal: String,
}

/// What a token stands for in contracts: its kind and its text.
pub type TokenView = (TokenType, Seq<char>);

impl View for Token {
    type V = TokenView;

    open spec fn view(&self) -> TokenView {
        (self.token_type, self.literal@)
    }
}

impl Token {
    /// A copy of this token.
    pub fn duplicate(&self) -> (r: Token)
        ensures
            r@ == self@,
    {
        Token { token_type: self.token_type, literal: self.literal.clone() }
    }
}

/// The view of the end-of-input token.
pub open spec fn eof_view() -> TokenView {
    (TokenType::EOF, seq!['\0'])
}

/// The views of a sequence of tokens.
pub open spec fn token_views(ts: Seq<Token>) -> Seq<TokenView> {
    ts.map_values(|t: Token| t@)
}

/// The kind that a word of letters gets: a keyword's own kind, else `IDENT`.
pub open spec fn keyword_kind(word: Seq<char>) -> TokenType {
    if word == seq!['f', 'n'] {
        TokenType::FUNCTION
    } else if word == seq!['l', 'e', 't'] {
        TokenType::LET
    } else if word == seq!['t', 'r', 'u', 'e'] {
        TokenType::TRUE
    } else if word == seq!['f', 'a', 'l', 's', 'e'] {
        TokenType::FALSE
    } else if word == seq!['i', 'f'] {
        TokenType::IF
    } else if word == seq!['e', 'l', 's', 'e'] {
        TokenType::ELSE
    } else if word == seq!['r', 'e', 't', 'u', 'r', 'n'] {
        TokenType::RETURN
    } else {
        TokenType::IDENT
    }
}

/// Whether `s` holds exactly the characters of `w`.
fn chars_equal(s: &Vec<char>, w: &[char]) -> (r: bool)
    ensures
        r == (s@ == w@),
{
    if s.len() != w.len() {
        return false;
    }
    let mut i: usize = 0;
    while i < s.len()
        invariant
            s@.len() == w@.len(),
            i <= s.len(),
            forall|j: int| 0 <= j < i ==> s@[j] == w@[j],
        decreases s.len() - i,
    {
        if s[i] != w[i] {
            return false;
        }
        i = i + 1;
    }
    assert(s@ =~= w@);
    true
}

/// Classifies a word of letters: a keyword gets its own kind, anything else is
/// an identifier.
pub fn lookup_ident(ident: &str) -> (r: TokenType)
    ensures
        r == keyword_kind(ident@),
{
    let n = ident.unicode_len();
    let mut word: Vec<char> = Vec::new();
    let mut i: usize = 0;
    while i < n
        invariant
            n == ident@.len(),
            i <= n,
            word@ == ident@.subrange(0, i as int),
        decreases n - i,
    {
        word.push(ident.get_char(i));
        i = i + 1;
        assert(word@ =~= ident@.subrange(0, i as int));
    }
    assert(word@ =~= ident@);
    lookup_word(&word)
}

/// Classifies a word held as characters; see `lookup_ident`.
fn lookup_word(word: &Vec<char>) -> (r: TokenType)
    ensures
        r == keyword_kind(word@),
{
    let fn_word = ['f', 'n'];
    let let_word = ['l', 'e', 't'];
    let true_word = ['t', 'r', 'u', 'e'];
    let false_word = ['f', 'a', 'l', 's', 'e'];
    let if_word = ['i', 'f'];
    let else_word = ['e', 'l', 's', 'e'];
    let return_word = ['r', 'e', 't', 'u', 'r', 'n'];
    assert(fn_word@ =~= seq!['f', 'n']);
    assert(let_word@ =~= seq!['l', 'e', 't']);
    assert(true_word@ =~= seq!['t', 'r', 'u', 'e']);
    assert(false_word@ =~= seq!['f', 'a', 'l', 's', 'e']);
    assert(if_word@ =~= seq!['i', 'f']);
    assert(else_word@ =~= seq!['e', 'l', 's', 'e']);
    assert(return_word@ =~= seq!['r', 'e', 't', 'u', 'r', 'n']);
    if chars_equal(word, fn_word.as_slice()) {
        TokenType::FUNCTION
    } else if chars_equal(word, let_word.as_slice()) {
        TokenType::LET
    } else if chars_equal(word, true_word.as_slice()) {
        TokenType::TRUE
    } else if chars_equal(word, false_word.as_slice()) {
        TokenType::FALSE
    } else if chars_equal(word, if_word.as_slice()) {
        TokenType::IF
    } else if chars_equal(word, else_word.as_slice()) {
        TokenType::ELSE
    } else if chars_equal(word, return_word.as_slice()) {
        TokenType::RETURN
    } else {
        TokenType::IDENT
    }
}

} // verus!
