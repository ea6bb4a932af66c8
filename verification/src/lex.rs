//! The lexer: from text to tokens.
//!
//! Blanks separate tokens and are dropped. A number is a longest run of
//! digits; a name is a longest run of letters, digits and underscores that
//! starts with a letter or an underscore. The keywords are `$print`,
//! `$read` and `$if`, assignment is `:=`, and the other tokens are single
//! characters. A character that starts none of these is a token of its
//! own, of kind `Unknown`.

use vstd::prelude::*;
use vstd::std_specs::iter::IteratorSpec;
use vstd::string::StrSliceExecFns;

verus! {

/// The kinds of tokens.
#[derive(Debug, Clone, Copy, PartialEq, Eq, Structural)]
pub enum TokenKind {
    /// `:=`
    Assign,
    /// `$print`
    Print,
    /// `$read`
    Read,
    /// `$if`
    If,
    /// A name.
    Id,
    /// A number.
    Num,
    /// `+`
    Plus,
    /// `-`
    Minus,
    /// `*`
    Mul,
    /// `/`
    Div,
    /// `<`
    Lt,
    /// `~`
    Tilde,
    /// `{`
    LBrace,
    /// `}`
    RBrace,
    /// A character that starts no token.
    Unknown,
}

/// A token: its kind, and the piece of the input that it was read from.
#[derive(Debug, Clone, Copy, PartialEq, Eq)]
pub struct Token<'input> {
    pub kind: TokenKind,
    pub text: &'input str,
}

/// The mathematical value of a [`Token`].
pub struct TokenView {
    pub kind: TokenKind,
    pub text: Seq<char>,
}

impl<'input> View for Token<'input> {
    type V = TokenView;

    open spec fn view(&self) -> TokenView {
        TokenView { kind: self.kind, text: self.text@ }
    }
}

/// The values of `tokens`, in order.
pub open spec fn tokens_view(tokens: Seq<Token>) -> Seq<TokenView> {
    Seq::new(tokens.len(), |i: int| tokens[i]@)
}

/// The name of a kind, as error messages show it.
pub open spec fn kind_name(kind: TokenKind) -> Seq<char> {
    match kind {
        TokenKind::Assign => "Assign"@,
        TokenKind::Print => "Print"@,
        TokenKind::Read => "Read"@,
        TokenKind::If => "If"@,
        TokenKind::Id => "Id"@,
        TokenKind::Num => "Num"@,
        TokenKind::Plus => "Plus"@,
        TokenKind::Minus => "Minus"@,
        TokenKind::Mul => "Mul"@,
        TokenKind::Div => "Div"@,
        TokenKind::Lt => "Lt"@,
        TokenKind::Tilde => "Tilde"@,
        TokenKind::LBrace => "LBrace"@,
        TokenKind::RBrace => "RBrace"@,
        TokenKind::Unknown => "Unknown"@,
    }
}

impl TokenKind {
    /// The name of the kind, as error messages show it.
    pub fn name(&self) -> (r: &'static str)
        ensures
            r@ == kind_name(*self),
    {
        match self {
            TokenKind::Assign => "Assign",
            TokenKind::Print => "Print",
            TokenKind::Read => "Read",
            TokenKind::If => "If",
            TokenKind::Id => "Id",
            TokenKind::Num => "Num",
            TokenKind::Plus => "Plus",
            TokenKind::Minus => "Minus",
            TokenKind::Mul => "Mul",
            TokenKind::Div => "Div",
            TokenKind::Lt => "Lt",
            TokenKind::Tilde => "Tilde",
            TokenKind::LBrace => "LBrace",
            TokenKind::RBrace => "RBrace",
            TokenKind::Unknown => "Unknown",
        }
    }
}

/// Whether `c` is a blank: a space, a tab, or the end of a line.
pub open spec fn is_space(c: char) -> bool {
    c == ' ' || c == '\t' || c == '\n' || c == '\r'
}

/// Whether `c` is a decimal digit.
pub open spec fn is_digit(c: char) -> bool {
    '0' <= c && c <= '9'
}

/// Whether a name can start with `c`.
pub open spec fn is_name_start(c: char) -> bool {
    ('a' <= c && c <= 'z') || ('A' <= c && c <= 'Z') || c == '_'
}

/// Whether a name can go on with `c`.
pub open spec fn is_name_char(c: char) -> bool {
    is_name_start(c) || is_digit(c)
}

/// Where the run of digits that starts at `pos` ends.
pub open spec fn digits_end(s: Seq<char>, pos: int) -> int
    decreases s.len() - pos,
{
    if 0 <= pos < s.len() && is_digit(s[pos]) {
        digits_end(s, pos + 1)
    } else {
        pos
    }
}

/// Where the run of name characters that starts at `pos` ends.
pub open spec fn name_end(s: Seq<char>, pos: int) -> int
    decreases s.len() - pos,
{
    if 0 <= pos < s.len() && is_name_char(s[pos]) {
        name_end(s, pos + 1)
    } else {
        pos
    }
}

/// Whether `word` stands in `s` at `pos`.
pub open spec fn word_at(s: Seq<char>, pos: int, word: Seq<char>) -> bool {
    0 <= pos && pos + word.len() <= s.len() && s.subrange(pos, pos + word.len()) == word
}

/// The kind of the single-character token `c`.
pub open spec fn symbol_kind(c: char) -> TokenKind {
    if c == '+' {
        TokenKind::Plus
    } else if c == '-' {
        TokenKind::Minus
    } else if c == '*' {
        TokenKind::Mul
    } else if c == '/' {
        TokenKind::Div
    } else if c == '<' {
        TokenKind::Lt
    } else if c == '~' {
        TokenKind::Tilde
    } else if c == '{' {
        TokenKind::LBrace
    } else if c == '}' {
        TokenKind::RBrace
    } else {
        TokenKind::Unknown
    }
}

/// The kind of the token that starts at `pos`, and where it ends. The
/// character at `pos` is not a blank.
pub open spec fn lexeme_at(s: Seq<char>, pos: int) -> (TokenKind, int) {
    let c = s[pos];
    if is_digit(c) {
        (TokenKind::Num, digits_end(s, pos))
    } else if is_name_start(c) {
        (TokenKind::Id, name_end(s, pos))
    } else if c == '$' {
        if word_at(s, pos + 1, seq!['p', 'r', 'i', 'n', 't']) {
            (TokenKind::Print, pos + 6)
        } else if word_at(s, pos + 1, seq!['r', 'e', 'a', 'd']) {
            (TokenKind::Read, pos + 5)
        } else if word_at(s, pos + 1, seq!['i', 'f']) {
            (TokenKind::If, pos + 3)
        } else {
            (TokenKind::Unknown, pos + 1)
        }
    } else if c == ':' {
        if word_at(s, pos + 1, seq!['=']) {
            (TokenKind::Assign, pos + 2)
        } else {
            (TokenKind::Unknown, pos + 1)
        }
    } else {
        (symbol_kind(c), pos + 1)
    }
}

/// The tokens of `s` from `pos` on.
pub open spec fn tokens_from(s: Seq<char>, pos: int) -> Seq<TokenView>
    decreases s.len() - pos,
{
    if pos < 0 || pos >= s.len() {
        Seq::empty()
    } else if is_space(s[pos]) {
        tokens_from(s, pos + 1)
    } else {
        let (kind, end) = lexeme_at(s, pos);
        if pos < end <= s.len() {
            seq![TokenView { kind, text: s.subrange(pos, end) }] + tokens_from(s, end)
        } else {
            Seq::empty()
        }
    }
}

/// The tokens of `s`.
pub open spec fn lex_spec(s: Seq<char>) -> Seq<TokenView> {
    tokens_from(s, 0)
}

/// A run of digits ends within the text, at or after its start.
pub proof fn lemma_digits_end(s: Seq<char>, pos: int)
    requires
        0 <= pos <= s.len(),
    ensures
        pos <= digits_end(s, pos) <= s.len(),
        forall|k: int| pos <= k < digits_end(s, pos) ==> is_digit(#[trigger] s[k]),
        digits_end(s, pos) < s.len() ==> !is_digit(s[digits_end(s, pos)]),
    decreases s.len() - pos,
{
    if pos < s.len() && is_digit(s[pos]) {
        lemma_digits_end(s, pos + 1);
    }
}

/// A run of name characters ends within the text, at or after its start.
pub proof fn lemma_name_end(s: Seq<char>, pos: int)
    requires
        0 <= pos <= s.len(),
    ensures
        pos <= name_end(s, pos) <= s.len(),
        forall|k: int| pos <= k < name_end(s, pos) ==> is_name_char(#[trigger] s[k]),
        name_end(s, pos) < s.len() ==> !is_name_char(s[name_end(s, pos)]),
    decreases s.len() - pos,
{
    if pos < s.len() && is_name_char(s[pos]) {
        lemma_name_end(s, pos + 1);
    }
}

/// A token is not empty and ends within the text.
pub proof fn lemma_lexeme_bounds(s: Seq<char>, pos: int)
    requires
        0 <= pos < s.len(),
    ensures
        pos < lexeme_at(s, pos).1 <= s.len(),
{
    lemma_digits_end(s, pos + 1);
    lemma_name_end(s, pos + 1);
}

/// Whether `s` is made of digits only.
pub open spec fn all_digits(s: Seq<char>) -> bool {
    forall|i: int| 0 <= i < s.len() ==> is_digit(#[trigger] s[i])
}

/// Whether `s` is made of name characters only.
pub open spec fn all_name_chars(s: Seq<char>) -> bool {
    forall|i: int| 0 <= i < s.len() ==> is_name_char(#[trigger] s[i])
}

/// The text of the tokens of `kind`, for a kind whose tokens all have the
/// same text.
pub open spec fn fixed_text(kind: TokenKind) -> Seq<char> {
    match kind {
        TokenKind::Assign => seq![':', '='],
        TokenKind::Print => seq!['$', 'p', 'r', 'i', 'n', 't'],
        TokenKind::Read => seq!['$', 'r', 'e', 'a', 'd'],
        TokenKind::If => seq!['$', 'i', 'f'],
        TokenKind::Plus => seq!['+'],
        TokenKind::Minus => seq!['-'],
        TokenKind::Mul => seq!['*'],
        TokenKind::Div => seq!['/'],
        TokenKind::Lt => seq!['<'],
        TokenKind::Tilde => seq!['~'],
        TokenKind::LBrace => seq!['{'],
        TokenKind::RBrace => seq!['}'],
        _ => Seq::empty(),
    }
}

/// Whether the text of `t` is one that the lexer gives to a token of its
/// kind: digits for a number; a name start and name characters for a name;
/// one character that starts no token for an unknown one; and the one text
/// of each other kind.
pub open spec fn well_shaped(t: TokenView) -> bool {
    match t.kind {
        TokenKind::Num => t.text.len() > 0 && all_digits(t.text),
        TokenKind::Id => t.text.len() > 0 && is_name_start(t.text[0]) && all_name_chars(t.text),
        TokenKind::Unknown => t.text.len() == 1 && !is_space(t.text[0]) && !is_name_char(
            t.text[0],
        ) && symbol_kind(t.text[0]) == TokenKind::Unknown,
        _ => t.text == fixed_text(t.kind),
    }
}

/// Every token of a text is well shaped.
pub proof fn lemma_tokens_well_shaped(s: Seq<char>, pos: int)
    requires
        0 <= pos,
    ensures
        forall|i: int|
            0 <= i < tokens_from(s, pos).len() ==> well_shaped(#[trigger] tokens_from(s, pos)[i]),
    decreases s.len() - pos,
{
    if pos >= s.len() {
        assert(tokens_from(s, pos).len() == 0);
    } else if is_space(s[pos]) {
        lemma_tokens_well_shaped(s, pos + 1);
        assert(tokens_from(s, pos) == tokens_from(s, pos + 1));
    } else {
        let (kind, end) = lexeme_at(s, pos);
        lemma_lexeme_bounds(s, pos);
        lemma_digits_end(s, pos);
        lemma_name_end(s, pos);
        lemma_tokens_well_shaped(s, end);
        let t = TokenView { kind, text: s.subrange(pos, end) };
        let c = s[pos];
        assert(well_shaped(t)) by {
            if is_digit(c) {
            } else if is_name_start(c) {
            } else if c == '$' {
                if word_at(s, pos + 1, seq!['p', 'r', 'i', 'n', 't']) {
                    assert(s.subrange(pos + 1, pos + 6) == seq!['p', 'r', 'i', 'n', 't']);
                    assert(t.text =~= seq!['$'] + s.subrange(pos + 1, pos + 6));
                    assert(t.text =~= fixed_text(kind));
                } else if word_at(s, pos + 1, seq!['r', 'e', 'a', 'd']) {
                    assert(t.text =~= seq!['$'] + s.subrange(pos + 1, pos + 5));
                    assert(t.text =~= fixed_text(kind));
                } else if word_at(s, pos + 1, seq!['i', 'f']) {
                    assert(t.text =~= seq!['$'] + s.subrange(pos + 1, pos + 3));
                    assert(t.text =~= fixed_text(kind));
                } else {
                }
            } else if c == ':' {
                if word_at(s, pos + 1, seq!['=']) {
                    assert(t.text =~= seq![':'] + s.subrange(pos + 1, pos + 2));
                    assert(t.text =~= fixed_text(kind));
                }
            } else {
                assert(t.text =~= seq![c]);
                assert(t.text =~= fixed_text(kind) || kind == TokenKind::Unknown);
            }
        }
        let all = tokens_from(s, pos);
        assert(all == seq![t] + tokens_from(s, end));
        assert forall|i: int| 0 <= i < all.len() implies well_shaped(#[trigger] all[i]) by {
            if i > 0 {
                assert(all[i] == tokens_from(s, end)[i - 1]);
            } else {
                assert(all[i] == t);
            }
        }
    }
}

/// The characters of `s`, in order.
pub fn chars_of(s: &str) -> (v: Vec<char>)
    ensures
        v@ == s@,
{
    let mut v: Vec<char> = Vec::new();
    for c in it: s.chars()
        invariant
            it.seq() == s@,
            v@ == it.seq().take(it.index() as int),
    {
        v.push(c);
        assert(v@ =~= it.seq().take(it.index() + 1));
    }
    assert(v@ =~= s@);
    v
}

/// Whether `c` is a blank.
pub fn char_is_space(c: char) -> (r: bool)
    ensures
        r == is_space(c),
{
    c == ' ' || c == '\t' || c == '\n' || c == '\r'
}

/// Whether `c` is a decimal digit.
pub fn char_is_digit(c: char) -> (r: bool)
    ensures
        r == is_digit(c),
{
    '0' <= c && c <= '9'
}

/// Whether a name can go on with `c`.
pub fn char_is_name_char(c: char) -> (r: bool)
    ensures
        r == is_name_char(c),
{
    ('a' <= c && c <= 'z') || ('A' <= c && c <= 'Z') || c == '_' || ('0' <= c && c <= '9')
}

/// The kind of the token that starts at `pos`, and where it ends.
fn next_lexeme(chars: &Vec<char>, pos: usize) -> (r: (TokenKind, usize))
    requires
        pos < chars@.len(),
    ensures
        r.0 == lexeme_at(chars@, pos as int).0,
        r.1 == lexeme_at(chars@, pos as int).1,
        pos < r.1 <= chars@.len(),
{
    let ghost s = chars@;
    let n = chars.len();
    let c = chars[pos];
    proof {
        lemma_lexeme_bounds(s, pos as int);
    }
    if char_is_digit(c) {
        let mut end = pos + 1;
        while end < n && char_is_digit(chars[end])
            invariant
                pos < end <= n,
                n == chars@.len(),
                s == chars@,
                digits_end(s, pos as int) == digits_end(s, end as int),
            decreases n - end,
        {
            end += 1;
        }
        (TokenKind::Num, end)
    } else if char_is_name_char(c) {
        let mut end = pos + 1;
        while end < n && char_is_name_char(chars[end])
            invariant
                pos < end <= n,
                n == chars@.len(),
                s == chars@,
                name_end(s, pos as int) == name_end(s, end as int),
            decreases n - end,
        {
            end += 1;
        }
        (TokenKind::Id, end)
    } else if c == '$' {
        if n - pos > 5 && chars[pos + 1] == 'p' && chars[pos + 2] == 'r' && chars[pos + 3] == 'i'
            && chars[pos + 4] == 'n' && chars[pos + 5] == 't' {
            assert(s.subrange(pos + 1, pos + 6) =~= seq!['p', 'r', 'i', 'n', 't']);
            (TokenKind::Print, pos + 6)
        } else if n - pos > 4 && chars[pos + 1] == 'r' && chars[pos + 2] == 'e' && chars[pos + 3]
            == 'a' && chars[pos + 4] == 'd' {
            assert(s.subrange(pos + 1, pos + 5) =~= seq!['r', 'e', 'a', 'd']);
            assert(!word_at(s, pos + 1, seq!['p', 'r', 'i', 'n', 't'])) by {
                if word_at(s, pos + 1, seq!['p', 'r', 'i', 'n', 't']) {
                    assert(s.subrange(pos + 1, pos + 6)[0] == 'p');
                }
            }
            (TokenKind::Read, pos + 5)
        } else if n - pos > 2 && chars[pos + 1] == 'i' && chars[pos + 2] == 'f' {
            assert(s.subrange(pos + 1, pos + 3) =~= seq!['i', 'f']);
            assert(!word_at(s, pos + 1, seq!['p', 'r', 'i', 'n', 't'])) by {
                if word_at(s, pos + 1, seq!['p', 'r', 'i', 'n', 't']) {
                    assert(s.subrange(pos + 1, pos + 6)[0] == 'p');
                }
            }
            assert(!word_at(s, pos + 1, seq!['r', 'e', 'a', 'd'])) by {
                if word_at(s, pos + 1, seq!['r', 'e', 'a', 'd']) {
                    assert(s.subrange(pos + 1, pos + 5)[0] == 'r');
                }
            }
            (TokenKind::If, pos + 3)
        } else {
            assert(!word_at(s, pos + 1, seq!['p', 'r', 'i', 'n', 't'])) by {
                if word_at(s, pos + 1, seq!['p', 'r', 'i', 'n', 't']) {
                    let w = s.subrange(pos + 1, pos + 6);
                    assert(w[0] == 'p' && w[1] == 'r' && w[2] == 'i' && w[3] == 'n' && w[4] == 't');
                }
            }
            assert(!word_at(s, pos + 1, seq!['r', 'e', 'a', 'd'])) by {
                if word_at(s, pos + 1, seq!['r', 'e', 'a', 'd']) {
                    let w = s.subrange(pos + 1, pos + 5);
                    assert(w[0] == 'r' && w[1] == 'e' && w[2] == 'a' && w[3] == 'd');
                }
            }
            assert(!word_at(s, pos + 1, seq!['i', 'f'])) by {
                if word_at(s, pos + 1, seq!['i', 'f']) {
                    let w = s.subrange(pos + 1, pos + 3);
                    assert(w[0] == 'i' && w[1] == 'f');
                }
            }
            (TokenKind::Unknown, pos + 1)
        }
    } else if c == ':' {
        if n - pos > 1 && chars[pos + 1] == '=' {
            assert(s.subrange(pos + 1, pos + 2) =~= seq!['=']);
            (TokenKind::Assign, pos + 2)
        } else {
            assert(!word_at(s, pos + 1, seq!['='])) by {
                if word_at(s, pos + 1, seq!['=']) {
                    assert(s.subrange(pos + 1, pos + 2)[0] == '=');
                }
            }
            (TokenKind::Unknown, pos + 1)
        }
    } else if c == '+' {
        (TokenKind::Plus, pos + 1)
    } else if c == '-' {
        (TokenKind::Minus, pos + 1)
    } else if c == '*' {
        (TokenKind::Mul, pos + 1)
    } else if c == '/' {
        (TokenKind::Div, pos + 1)
    } else if c == '<' {
        (TokenKind::Lt, pos + 1)
    } else if c == '~' {
        (TokenKind::Tilde, pos + 1)
    } else if c == '{' {
        (TokenKind::LBrace, pos + 1)
    } else if c == '}' {
        (TokenKind::RBrace, pos + 1)
    } else {
        (TokenKind::Unknown, pos + 1)
    }
}

/// The piece of `input` from character `from` up to character `to`.
fn text_between<'a>(input: &'a str, ascii: bool, from: usize, to: usize) -> (r: &'a str)
    requires
        from <= to <= input@.len(),
        ascii ==> input.is_ascii(),
    ensures
        r@ == input@.subrange(from as int, to as int),
{
    if ascii {
        input.substring_ascii(from, to)
    } else {
        input.substring_char(from, to)
    }
}

/// The tokens of `input`, in order.
pub fn get_tokens(input: &str) -> (r: Vec<Token<'_>>)
    ensures
        tokens_view(r@) == lex_spec(input@),
{
    let chars = chars_of(input);
    let ascii = input.is_ascii();
    let mut tokens: Vec<Token> = Vec::new();
    let mut pos: usize = 0;
    assert(tokens_view(tokens@) + tokens_from(input@, 0) =~= lex_spec(input@));
    while pos < chars.len()
        invariant
            pos <= chars@.len(),
            chars@ == input@,
            ascii ==> input.is_ascii(),
            lex_spec(input@) == tokens_view(tokens@) + tokens_from(input@, pos as int),
        decreases chars@.len() - pos,
    {
        if char_is_space(chars[pos]) {
            pos += 1;
        } else {
            let (kind, end) = next_lexeme(&chars, pos);
            let text = text_between(input, ascii, pos, end);
            let token = Token { kind, text };
            let ghost before = tokens_view(tokens@);
            tokens.push(token);
            assert(tokens_view(tokens@) =~= before.push(token@));
            assert(before.push(token@) + tokens_from(input@, end as int) =~= before + (seq![
                token@,
            ] + tokens_from(input@, end as int)));
            pos = end;
        }
    }
    assert(tokens_view(tokens@) + tokens_from(input@, pos as int) =~= tokens_view(tokens@));
    tokens
}

} // verus!
