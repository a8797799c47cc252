use vstd::prelude::*;
use crate::token::{eof_view, token_views, keyword_kind, lookup_ident, Token, TokenType, TokenView};

verus! {

/// The character at offset `i` of `s`, or the sentinel `'\0'` past the end.
pub open spec fn char_at(s: Seq<char>, i: int) -> char {
    if 0 <= i < s.len() {
        s[i]
    } else {
        '\0'
    }
}

pub open spec fn is_space(c: char) -> bool {
    c == ' ' || c == '\t' || c == '\n' || c == '\r'
}

pub open spec fn is_letter_spec(c: char) -> bool {
    ('a' <= c && c <= 'z') || ('A' <= c && c <= 'Z') || c == '_'
}

pub open spec fn is_digit_spec(c: char) -> bool {
    '0' <= c && c <= '9'
}

/// The first offset at or after `i` that holds no whitespace.
pub open spec fn skip_spaces(s: Seq<char>, i: nat) -> nat
    decreases s.len() - i,
{
    if i < s.len() && is_space(s[i as int]) {
        skip_spaces(s, i + 1)
    } else {
        i
    }
}

/// The end of the run of letters that starts at `i`.
pub open spec fn letters_end(s: Seq<char>, i: nat) -> nat
    decreases s.len() - i,
{
    if i < s.len() && is_letter_spec(s[i as int]) {
        letters_end(s, i + 1)
    } else {
        i
    }
}

/// The end of the run of digits that starts at `i`.
pub open spec fn digits_end(s: Seq<char>, i: nat) -> nat
    decreases s.len() - i,
{
    if i < s.len() && is_digit_spec(s[i as int]) {
        digits_end(s, i + 1)
    } else {
        i
    }
}

/// The kind of a one-character operator or punctuation mark.
pub open spec fn single_kind(c: char) -> Option<TokenType> {
    if c == '=' {
        Some(TokenType::ASSIGN)
    } else if c == '+' {
        Some(TokenType::PLUS)
    } else if c == '-' {
        Some(TokenType::MINUS)
    } else if c == '!' {
        Some(TokenType::BANG)
    } else if c == '*' {
        Some(TokenType::ASTERISK)
    } else if c == '/' {
        Some(TokenType::SLASH)
    } else if c == '<' {
        Some(TokenType::LT)
    } else if c == '>' {
        Some(TokenType::GT)
    } else if c == '(' {
        Some(TokenType::LPAREN)
    } else if c == ')' {
        Some(TokenType::RPAREN)
    } else if c == '{' {
        Some(TokenType::LBRACE)
    } else if c == '}' {
        Some(TokenType::RBRACE)
    } else if c == ',' {
        Some(TokenType::COMMA)
    } else if c == ';' {
        Some(TokenType::SEMICOLON)
    } else {
        None
    }
}

/// The token that scanning `s` from offset `i` yields, and the offset where
/// the next scan starts. Whitespace is skipped first; at the end of the input
/// the token is `EOF` with the sentinel as its text, and nothing is consumed.
pub open spec fn scan(s: Seq<char>, i: nat) -> (TokenView, nat) {
    let j = skip_spaces(s, i);
    if j >= s.len() {
        ((TokenType::EOF, seq!['\0']), j)
    } else {
        let c = s[j as int];
        if c == '=' && char_at(s, j + 1int) == '=' {
            ((TokenType::EQ, seq!['=', '=']), j + 2)
        } else if c == '!' && char_at(s, j + 1int) == '=' {
            ((TokenType::NEQ, seq!['!', '=']), j + 2)
        } else if single_kind(c) is Some {
            ((single_kind(c)->0, seq![c]), j + 1)
        } else if is_letter_spec(c) {
            let word = s.subrange(j as int, letters_end(s, j) as int);
            ((keyword_kind(word), word), letters_end(s, j))
        } else if is_digit_spec(c) {
            ((TokenType::INT, s.subrange(j as int, digits_end(s, j) as int)), digits_end(s, j))
        } else {
            ((TokenType::ILLEGAL, seq![c]), j + 1)
        }
    }
}

pub proof fn lemma_skip_spaces(s: Seq<char>, i: nat)
    ensures
        i <= skip_spaces(s, i),
        i <= s.len() ==> skip_spaces(s, i) <= s.len(),
        skip_spaces(s, i) < s.len() ==> !is_space(s[skip_spaces(s, i) as int]),
        skip_spaces(s, skip_spaces(s, i)) == skip_spaces(s, i),
    decreases s.len() - i,
{
    if i < s.len() && is_space(s[i as int]) {
        lemma_skip_spaces(s, i + 1);
    }
}

pub proof fn lemma_letters_end(s: Seq<char>, i: nat)
    ensures
        i <= letters_end(s, i),
        i <= s.len() ==> letters_end(s, i) <= s.len(),
        forall|k: int| i <= k < letters_end(s, i) ==> is_letter_spec(#[trigger] s[k]),
        letters_end(s, i) < s.len() ==> !is_letter_spec(s[letters_end(s, i) as int]),
    decreases s.len() - i,
{
    if i < s.len() && is_letter_spec(s[i as int]) {
        lemma_letters_end(s, i + 1);
    }
}

pub proof fn lemma_digits_end(s: Seq<char>, i: nat)
    ensures
        i <= digits_end(s, i),
        i <= s.len() ==> digits_end(s, i) <= s.len(),
        forall|k: int| i <= k < digits_end(s, i) ==> is_digit_spec(#[trigger] s[k]),
        digits_end(s, i) < s.len() ==> !is_digit_spec(s[digits_end(s, i) as int]),
    decreases s.len() - i,
{
    if i < s.len() && is_digit_spec(s[i as int]) {
        lemma_digits_end(s, i + 1);
    }
}

/// Every scan that does not reach the end consumes at least one character and
/// stays within the input.
pub proof fn lemma_scan_advances(s: Seq<char>, i: nat)
    requires
        i <= s.len(),
    ensures
        i <= scan(s, i).1 <= s.len(),
        scan(s, i).0.0 != TokenType::EOF ==> i < scan(s, i).1,
        scan(s, i).0.0 == TokenType::EOF ==> scan(s, i).1 == s.len(),
{
    lemma_skip_spaces(s, i);
    let j = skip_spaces(s, i);
    if j < s.len() {
        lemma_letters_end(s, j);
        lemma_digits_end(s, j);
    }
}

/// Once the scan is at the end of the input, it stays there: scanning again
/// from where the end-of-input token left off gives the same token and the
/// same offset.
pub proof fn lemma_eof_stays(s: Seq<char>, i: nat)
    requires
        scan(s, i).0.0 == TokenType::EOF,
    ensures
        scan(s, scan(s, i).1) == scan(s, i),
{
    lemma_skip_spaces(s, i);
    let j = skip_spaces(s, i);
    if j < s.len() {
        lemma_letters_end(s, j);
        lemma_digits_end(s, j);
    }
}

/// The offset reached after `n` scans from offset `i`.
pub open spec fn offset_after(s: Seq<char>, i: nat, n: nat) -> nat
    decreases n,
{
    if n == 0 {
        i
    } else {
        offset_after(s, scan(s, i).1, (n - 1) as nat)
    }
}

/// Scanning any input eventually reaches the end-of-input token: after as
/// many scans as there are characters left, and after any number more, the
/// next token is `EOF`.
pub proof fn lemma_scan_reaches_eof(s: Seq<char>, i: nat, n: nat)
    requires
        i <= s.len(),
        n >= s.len() - i,
    ensures
        scan(s, offset_after(s, i, n)).0.0 == TokenType::EOF,
    decreases n,
{
    lemma_scan_advances(s, i);
    if scan(s, i).0.0 == TokenType::EOF {
        lemma_eof_forever(s, i, n);
    } else if n > 0 {
        lemma_scan_reaches_eof(s, scan(s, i).1, (n - 1) as nat);
    }
}

/// From an offset where the end-of-input token comes, every further scan
/// gives it again.
pub proof fn lemma_eof_forever(s: Seq<char>, i: nat, n: nat)
    requires
        scan(s, i).0.0 == TokenType::EOF,
    ensures
        scan(s, offset_after(s, i, n)) == scan(s, i),
    decreases n,
{
    lemma_eof_stays(s, i);
    if n > 0 {
        lemma_eof_forever(s, scan(s, i).1, (n - 1) as nat);
    }
}

/// A one-character operator or punctuation mark on its own scans as one
/// token of the kind the table gives it, whose text is that character.
pub proof fn lemma_single_char_token(c: char)
    requires
        single_kind(c) is Some,
    ensures
        scan(seq![c], 0) == ((single_kind(c)->0, seq![c]), 1nat),
{
    let s = seq![c];
    assert(!is_space(c));
    assert(skip_spaces(s, 0) == 0);
    assert(char_at(s, 1) == '\0');
}

/// A run of letters scans as one token, however it begins: its text is the
/// whole run and its kind is the keyword's only where the whole run is a
/// keyword.
pub proof fn lemma_maximal_munch(word: Seq<char>, rest: Seq<char>)
    requires
        word.len() > 0,
        forall|k: int| 0 <= k < word.len() ==> is_letter_spec(#[trigger] word[k]),
        rest.len() == 0 || !is_letter_spec(rest[0]),
    ensures
        scan(word + rest, 0) == ((keyword_kind(word), word), word.len()),
{
    let s = word + rest;
    assert(s[0] == word[0]);
    assert(skip_spaces(s, 0) == 0);
    assert(single_kind(s[0]) is None);
    lemma_letters_run(s, word.len(), 0);
    assert(s.subrange(0, word.len() as int) =~= word);
}

proof fn lemma_letters_run(s: Seq<char>, n: nat, i: nat)
    requires
        i <= n <= s.len(),
        forall|k: int| i <= k < n ==> is_letter_spec(#[trigger] s[k]),
        n == s.len() || !is_letter_spec(s[n as int]),
    ensures
        letters_end(s, i) == n,
    decreases n - i,
{
    if i < n {
        lemma_letters_run(s, n, i + 1);
    }
}

/// Every token that scanning from `i` yields, up to and including the first
/// end-of-input token.
pub open spec fn scan_all(s: Seq<char>, i: nat) -> Seq<TokenView>
    decreases s.len() - i,
{
    if scan(s, i).0.0 == TokenType::EOF {
        seq![scan(s, i).0]
    } else {
        proof {
            if i <= s.len() {
                lemma_scan_advances(s, i);
            }
        }
        seq![scan(s, i).0] + scan_all(s, scan(s, i).1)
    }
}

/// The token list ends with the end-of-input token and holds it nowhere
/// else, and it is at most one longer than what is left of the input.
pub proof fn lemma_scan_all(s: Seq<char>, i: nat)
    requires
        i <= s.len(),
    ensures
        1 <= scan_all(s, i).len() <= s.len() - i + 1,
        scan_all(s, i).last() == eof_view(),
        forall|k: int| 0 <= k < scan_all(s, i).len() - 1 ==> (#[trigger] scan_all(s, i)[k]).0 != TokenType::EOF,
        scan_all(s, i)[0] == scan(s, i).0,
    decreases s.len() - i,
{
    lemma_scan_advances(s, i);
    if scan(s, i).0.0 != TokenType::EOF {
        lemma_scan_all(s, scan(s, i).1);
        let rest = scan_all(s, scan(s, i).1);
        assert forall|k: int| 0 <= k < scan_all(s, i).len() - 1 implies (#[trigger] scan_all(s, i)[k]).0 != TokenType::EOF by {
            if k > 0 {
                assert(scan_all(s, i)[k] == rest[k - 1]);
            }
        }
    }
}

/// Past the end-of-input token the list does not change.
pub proof fn lemma_scan_all_eof(s: Seq<char>, i: nat)
    requires
        scan(s, i).0.0 == TokenType::EOF,
    ensures
        scan_all(s, scan(s, i).1) == scan_all(s, i),
        scan_all(s, i) == seq![scan(s, i).0],
{
    lemma_eof_stays(s, i);
}

/// Splits `input` into its tokens, up to and including the end-of-input
/// token.
pub fn tokenize(input: String) -> (r: Vec<Token>)
    ensures
        token_views(r@) == scan_all(input@, 0),
{
    let ghost s = input@;
    let mut lexer = Lexer::new(input);
    let mut tokens: Vec<Token> = Vec::new();
    loop
        invariant
            lexer.wf(),
            lexer.source() == s,
            s == input@,
            token_views(tokens@) + scan_all(s, lexer.offset()) == scan_all(s, 0),
        decreases s.len() - lexer.offset(),
    {
        proof {
            lexer.lemma_offset_in_range();
            lemma_scan_advances(s, lexer.offset());
        }
        let ghost before = lexer.offset();
        let tok = lexer.next_token();
        let done = tok.token_type == TokenType::EOF;
        let ghost old_view = token_views(tokens@);
        tokens.push(tok);
        assert(token_views(tokens@) =~= old_view.push(scan(s, before).0));
        if done {
            assert(scan_all(s, before) == seq![scan(s, before).0]);
            assert(token_views(tokens@) =~= scan_all(s, 0));
            return tokens;
        }
        assert(scan_all(s, before) == seq![scan(s, before).0] + scan_all(s, lexer.offset()));
        assert(token_views(tokens@) + scan_all(s, lexer.offset()) =~= scan_all(s, 0));
    }
}

/// Relies on `String`'s `FromIterator<&char>`: the string holds the
/// characters in the order given.
#[verifier::external_body]
fn string_from_chars(chars: &Vec<char>) -> (r: String)
    ensures
        r@ == chars@,
{
    chars.iter().collect()
}

/// A tokenizer over one input text. It keeps the whole text, the offset of
/// the character under examination and that character itself (the sentinel
/// `'\0'` once the end is reached); the lookahead offset is always one
/// further. It moves forward only.
#[derive(Debug)]
pub struct Lexer {
    input: Vec<char>,
    position: usize,
    ch: char,
}

impl Lexer {
    /// The text being scanned.
    pub closed spec fn source(&self) -> Seq<char> {
        self.input@
    }

    /// The offset of the next character to scan.
    pub closed spec fn offset(&self) -> nat {
        self.position as nat
    }

    pub closed spec fn wf(&self) -> bool {
        &&& self.position <= self.input.len()
        &&& self.ch == char_at(self.input@, self.position as int)
    }

    pub proof fn lemma_offset_in_range(&self)
        requires
            self.wf(),
        ensures
            self.offset() <= self.source().len() <= usize::MAX,
    {
    }

    /// A tokenizer at the start of `input`.
    pub fn new(input: String) -> (r: Lexer)
        ensures
            r.wf(),
            r.source() == input@,
            r.offset() == 0,
    {
        let mut chars: Vec<char> = Vec::new();
        for c in it: input.as_str().chars()
            invariant
                chars@ == it.seq().take(it.index() as int),
        {
            chars.push(c);
        }
        assert(chars@ =~= input@);
        let ch = if chars.len() > 0 { chars[0] } else { '\0' };
        Lexer { input: chars, position: 0, ch }
    }

    /// Reads the next token and moves past it.
    pub fn next_token(&mut self) -> (tok: Token)
        requires
            old(self).wf(),
        ensures
            final(self).wf(),
            final(self).source() == old(self).source(),
            (tok@, final(self).offset()) == scan(old(self).source(), old(self).offset()),
    {
        proof {
            lemma_skip_spaces(self.input@, self.position as nat);
        }
        self.skip_whitespace();
        if self.position >= self.input.len() {
            return Self::new_token(TokenType::EOF, '\0');
        }
        let c = self.ch;
        if c == '=' && self.peek_char() == '=' {
            self.read_char();
            self.read_char();
            let pair = vec!['=', '='];
            let tok = Token { token_type: TokenType::EQ, literal: string_from_chars(&pair) };
            assert(pair@ =~= seq!['=', '=']);
            return tok;
        }
        if c == '!' && self.peek_char() == '=' {
            self.read_char();
            self.read_char();
            let pair = vec!['!', '='];
            let tok = Token { token_type: TokenType::NEQ, literal: string_from_chars(&pair) };
            assert(pair@ =~= seq!['!', '=']);
            return tok;
        }
        let single = match c {
            '=' => Some(TokenType::ASSIGN),
            '+' => Some(TokenType::PLUS),
            '-' => Some(TokenType::MINUS),
            '!' => Some(TokenType::BANG),
            '*' => Some(TokenType::ASTERISK),
            '/' => Some(TokenType::SLASH),
            '<' => Some(TokenType::LT),
            '>' => Some(TokenType::GT),
            '(' => Some(TokenType::LPAREN),
            ')' => Some(TokenType::RPAREN),
            '{' => Some(TokenType::LBRACE),
            '}' => Some(TokenType::RBRACE),
            ',' => Some(TokenType::COMMA),
            ';' => Some(TokenType::SEMICOLON),
            _ => None,
        };
        assert(single == single_kind(c));
        if let Some(kind) = single {
            self.read_char();
            Self::new_token(kind, c)
        } else if Self::is_letter(c) {
            let literal = self.read_identifier();
            Token { token_type: lookup_ident(literal.as_str()), literal }
        } else if Self::is_digit(c) {
            Token { token_type: TokenType::INT, literal: self.read_number() }
        } else {
            self.read_char();
            Self::new_token(TokenType::ILLEGAL, c)
        }
    }

    /// Reads the run of letters that starts at the current character.
    fn read_identifier(&mut self) -> (r: String)
        requires
            old(self).wf(),
        ensures
            final(self).wf(),
            final(self).source() == old(self).source(),
            final(self).offset() == letters_end(old(self).source(), old(self).offset()),
            r@ == old(self).source().subrange(old(self).offset() as int, final(self).offset() as int),
    {
        proof {
            lemma_letters_end(self.input@, self.position as nat);
        }
        let ghost start = self.position as int;
        let mut store: Vec<char> = Vec::new();
        while Self::is_letter(self.ch)
            invariant
                self.wf(),
                self.input@ == old(self).input@,
                0 <= start <= self.position,
                letters_end(self.input@, self.position as nat) == letters_end(self.input@, start as nat),
                store@ == self.input@.subrange(start, self.position as int),
            decreases self.input.len() - self.position,
        {
            store.push(self.ch);
            self.read_char();
            assert(store@ =~= self.input@.subrange(start, self.position as int));
        }
        string_from_chars(&store)
    }

    /// Reads the run of digits that starts at the current character.
    fn read_number(&mut self) -> (r: String)
        requires
            old(self).wf(),
        ensures
            final(self).wf(),
            final(self).source() == old(self).source(),
            final(self).offset() == digits_end(old(self).source(), old(self).offset()),
            r@ == old(self).source().subrange(old(self).offset() as int, final(self).offset() as int),
    {
        proof {
            lemma_digits_end(self.input@, self.position as nat);
        }
        let ghost start = self.position as int;
        let mut store: Vec<char> = Vec::new();
        while Self::is_digit(self.ch)
            invariant
                self.wf(),
                self.input@ == old(self).input@,
                0 <= start <= self.position,
                digits_end(self.input@, self.position as nat) == digits_end(self.input@, start as nat),
                store@ == self.input@.subrange(start, self.position as int),
            decreases self.input.len() - self.position,
        {
            store.push(self.ch);
            self.read_char();
            assert(store@ =~= self.input@.subrange(start, self.position as int));
        }
        string_from_chars(&store)
    }

    /// Moves past spaces, tabs, newlines and carriage returns.
    fn skip_whitespace(&mut self)
        requires
            old(self).wf(),
        ensures
            final(self).wf(),
            final(self).source() == old(self).source(),
            final(self).offset() == skip_spaces(old(self).source(), old(self).offset()),
    {
        while self.ch == ' ' || self.ch == '\t' || self.ch == '\n' || self.ch == '\r'
            invariant
                self.wf(),
                self.input@ == old(self).input@,
                skip_spaces(self.input@, self.position as nat) == skip_spaces(
                    old(self).input@,
                    old(self).position as nat,
                ),
            decreases self.input.len() - self.position,
        {
            self.read_char();
        }
    }

    fn is_letter(ch: char) -> (r: bool)
        ensures
            r == is_letter_spec(ch),
    {
        ('a' <= ch && ch <= 'z') || ('A' <= ch && ch <= 'Z') || ch == '_'
    }

    fn is_digit(ch: char) -> (r: bool)
        ensures
            r == is_digit_spec(ch),
    {
        '0' <= ch && ch <= '9'
    }

    /// A token of one character.
    pub fn new_token(token_type: TokenType, ch: char) -> (r: Token)
        ensures
            r@ == (token_type, seq![ch]),
    {
        let chars = vec![ch];
        assert(chars@ =~= seq![ch]);
        Token { token_type, literal: string_from_chars(&chars) }
    }

    /// Moves to the next character.
    fn read_char(&mut self)
        requires
            old(self).wf(),
            old(self).position < old(self).input.len(),
        ensures
            final(self).wf(),
            final(self).input@ == old(self).input@,
            final(self).position == old(self).position + 1,
    {
        self.position = self.position + 1;
        self.ch = if self.position < self.input.len() {
            self.input[self.position]
        } else {
            '\0'
        };
    }

    /// The character after the current one, without moving.
    fn peek_char(&self) -> (r: char)
        requires
            self.wf(),
        ensures
            r == char_at(self.input@, self.position + 1),
    {
        if self.position >= self.input.len() || self.position + 1 >= self.input.len() {
            '\0'
        } else {
            self.input[self.position + 1]
        }
    }
}

} // verus!
