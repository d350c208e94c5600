use crate::eval::native::Floats;
use crate::read::text::{int_literal, parse_int, push_char};
use vstd::prelude::*;

verus! {

/// What the lexer emits.
#[derive(Debug, Clone, PartialEq)]
pub enum Token {
    Symbol(String),
    String(String),
    Int64(i64),
    Float64(u64),
    Boolean(bool),
    /// The unit value, written `Nil`.
    Nil,
    LeftParen,
    RightParen,
    LeftBracket,
    RightBracket,
    LeftSquareBracket,
    RightSquareBracket,
    Caret,
    SingleQuote,
    Sharp,
    Dot,
}

#[derive(Debug, Clone, PartialEq)]
pub enum LexError {
    UnterminatedString,
}

pub open spec fn is_space(c: char) -> bool {
    c == ' ' || c == '\t' || c == '\n' || c == '\r'
}

/// The token a one-character mark stands for.
pub open spec fn mark(c: char) -> Option<Token> {
    if c == '(' {
        Some(Token::LeftParen)
    } else if c == ')' {
        Some(Token::RightParen)
    } else if c == '{' {
        Some(Token::LeftBracket)
    } else if c == '}' {
        Some(Token::RightBracket)
    } else if c == '[' {
        Some(Token::LeftSquareBracket)
    } else if c == ']' {
        Some(Token::RightSquareBracket)
    } else if c == '^' {
        Some(Token::Caret)
    } else if c == '#' {
        Some(Token::Sharp)
    } else if c == '\'' {
        Some(Token::SingleQuote)
    } else {
        None
    }
}

/// Whether `c` cannot belong to a bare atom.
pub open spec fn ends_atom(c: char) -> bool {
    is_space(c) || mark(c) is Some || c == '"' || c == ';'
}

/// A piece of program text: a mark, a string literal's contents, or a bare
/// atom.
pub enum Lexeme {
    Mark(Token),
    Text(Seq<char>),
    Atom(Seq<char>),
}

/// Where the bare atom starting at `i` ends.
pub open spec fn atom_end(s: Seq<char>, i: int) -> int
    decreases s.len() - i,
{
    if i < 0 || i >= s.len() || ends_atom(s[i]) {
        i
    } else {
        atom_end(s, i + 1)
    }
}

/// Where the line holding position `i` ends.
pub open spec fn line_end(s: Seq<char>, i: int) -> int
    decreases s.len() - i,
{
    if i < 0 || i >= s.len() || s[i] == '\n' {
        i
    } else {
        line_end(s, i + 1)
    }
}

/// The contents of a string literal whose opening quote is just before `i`,
/// and the position after its closing quote. A backslash right before a `"`
/// makes that quote part of the contents; any other backslash is itself.
pub open spec fn string_body(s: Seq<char>, i: int) -> Option<(Seq<char>, int)>
    decreases s.len() - i,
{
    if i < 0 || i >= s.len() {
        None
    } else if s[i] == '"' {
        Some((Seq::empty(), i + 1))
    } else if s[i] == '\\' && i + 1 < s.len() && s[i + 1] == '"' {
        match string_body(s, i + 2) {
            Some((t, j)) => Some((seq!['"'] + t, j)),
            None => None,
        }
    } else {
        match string_body(s, i + 1) {
            Some((t, j)) => Some((seq![s[i]] + t, j)),
            None => None,
        }
    }
}

pub open spec fn prepend(pre: Seq<Lexeme>, r: Result<Seq<Lexeme>, LexError>) -> Result<Seq<Lexeme>, LexError> {
    match r {
        Ok(x) => Ok(pre + x),
        Err(e) => Err(e),
    }
}

/// The lexemes of `s` from position `i`: blanks and `;` comments are
/// skipped, a string literal that does not end is an error.
pub open spec fn lex_from(s: Seq<char>, i: int) -> Result<Seq<Lexeme>, LexError>
    decreases s.len() - i,
{
    if i < 0 || i >= s.len() {
        Ok(Seq::empty())
    } else if s[i] == '"' {
        match string_body(s, i + 1) {
            Some((t, j)) => if i < j <= s.len() {
                prepend(seq![Lexeme::Text(t)], lex_from(s, j))
            } else {
                Ok(Seq::empty())
            },
            None => Err(LexError::UnterminatedString),
        }
    } else if is_space(s[i]) {
        lex_from(s, i + 1)
    } else if s[i] == ';' {
        let j = line_end(s, i + 1);
        if i < j <= s.len() {
            lex_from(s, j)
        } else {
            Ok(Seq::empty())
        }
    } else {
        match mark(s[i]) {
            Some(m) => prepend(seq![Lexeme::Mark(m)], lex_from(s, i + 1)),
            None => {
                let j = atom_end(s, i);
                if i < j <= s.len() {
                    prepend(seq![Lexeme::Atom(s.subrange(i, j))], lex_from(s, j))
                } else {
                    Ok(Seq::empty())
                }
            },
        }
    }
}

/// What a bare atom is, as far as the text alone decides.
pub enum AtomClass {
    Dot,
    Bool(bool),
    Nil,
    Int(i64),
    /// Text a float could be written as: the float unit decides between a
    /// float and a symbol.
    FloatLike,
    /// A symbol.
    Other,
}

pub open spec fn is_number_char(c: char) -> bool {
    ('0' <= c && c <= '9') || c == '+' || c == '-' || c == '.' || c == 'e' || c == 'E'
}

/// `t` spells the word `lower`, each letter in either case.
pub open spec fn word_ci(t: Seq<char>, lower: Seq<char>, upper: Seq<char>) -> bool {
    t.len() == lower.len() && lower.len() == upper.len() && forall|k: int| 0 <= k < t.len() ==> (#[trigger] t[k] == lower[k] || t[k] == upper[k])
}

/// `t` without one leading sign.
pub open spec fn unsigned(t: Seq<char>) -> Seq<char> {
    if t.len() > 0 && (t[0] == '+' || t[0] == '-') {
        t.drop_first()
    } else {
        t
    }
}

/// Whether a float could be written as `t`: digits with signs, points and
/// exponent marks only, and one digit at least; or a sign and `inf`,
/// `infinity` or `nan` in any case. Text of any other shape is no float.
pub open spec fn float_like(t: Seq<char>) -> bool {
    ||| (forall|k: int| 0 <= k < t.len() ==> is_number_char(#[trigger] t[k])) && (exists|k: int|
        0 <= k < t.len() && '0' <= #[trigger] t[k] && t[k] <= '9')
    ||| word_ci(unsigned(t), seq!['i', 'n', 'f'], seq!['I', 'N', 'F'])
    ||| word_ci(unsigned(t), seq!['n', 'a', 'n'], seq!['N', 'A', 'N'])
    ||| word_ci(
        unsigned(t),
        seq!['i', 'n', 'f', 'i', 'n', 'i', 't', 'y'],
        seq!['I', 'N', 'F', 'I', 'N', 'I', 'T', 'Y'],
    )
}

pub open spec fn classify(t: Seq<char>) -> AtomClass {
    if t == seq!['.'] {
        AtomClass::Dot
    } else if t == seq!['t', 'r', 'u', 'e'] {
        AtomClass::Bool(true)
    } else if t == seq!['f', 'a', 'l', 's', 'e'] {
        AtomClass::Bool(false)
    } else if t == seq!['N', 'i', 'l'] {
        AtomClass::Nil
    } else {
        match int_literal(t) {
            Some(n) => AtomClass::Int(n),
            None => if float_like(t) {
                AtomClass::FloatLike
            } else {
                AtomClass::Other
            },
        }
    }
}

/// Whether token `tok` is what lexeme `lx` gives.
pub open spec fn fits(tok: Token, lx: Lexeme) -> bool {
    match lx {
        Lexeme::Mark(m) => tok == m,
        Lexeme::Text(t) => tok matches Token::String(x) && x@ == t,
        Lexeme::Atom(t) => match classify(t) {
            AtomClass::Dot => tok is Dot,
            AtomClass::Bool(b) => tok == Token::Boolean(b),
            AtomClass::Nil => tok is Nil,
            AtomClass::Int(n) => tok == Token::Int64(n),
            AtomClass::FloatLike => tok is Float64 || (tok matches Token::Symbol(x) && x@ == t),
            AtomClass::Other => tok matches Token::Symbol(x) && x@ == t,
        },
    }
}

/// The token for bare atom `text`, given the float unit's reading `float` of
/// it (consulted only for text a float could be written as).
pub open spec fn atom_token(text: String, float: Option<u64>) -> Token {
    match classify(text@) {
        AtomClass::Dot => Token::Dot,
        AtomClass::Bool(b) => Token::Boolean(b),
        AtomClass::Nil => Token::Nil,
        AtomClass::Int(n) => Token::Int64(n),
        AtomClass::FloatLike => match float {
            Some(bits) => Token::Float64(bits),
            None => Token::Symbol(text),
        },
        AtomClass::Other => Token::Symbol(text),
    }
}

pub open spec fn all_fit(ts: Seq<Token>, ls: Seq<Lexeme>) -> bool {
    ts.len() == ls.len() && forall|k: int| 0 <= k < ts.len() ==> fits(#[trigger] ts[k], ls[k])
}

/// A cursor over the characters of a program.
pub struct Reader<'a> {
    program: &'a Vec<char>,
    cursor: usize,
}

impl<'a> Reader<'a> {
    pub closed spec fn text(&self) -> Seq<char> {
        self.program@
    }

    pub closed spec fn pos(&self) -> nat {
        self.cursor as nat
    }

    pub fn new(program: &'a Vec<char>) -> (r: Self)
        ensures
            r.text() == program@,
            r.pos() == 0,
    {
        Reader { program, cursor: 0 }
    }

    /// The character under the cursor, if the cursor is inside the text.
    pub fn current_char(&self) -> (r: Option<&'a char>)
        ensures
            self.pos() < self.text().len() ==> r == Some(&self.text()[self.pos() as int]),
            self.pos() >= self.text().len() ==> r.is_none(),
    {
        if self.cursor < self.program.len() {
            Some(&self.program[self.cursor])
        } else {
            None
        }
    }


    /// Moves the cursor one character on.
    pub fn goto_next_char(&mut self)
        requires
            old(self).pos() < usize::MAX,
        ensures
            final(self).text() == old(self).text(),
            final(self).pos() == old(self).pos() + 1,
    {
        self.cursor = self.cursor + 1;
    }
}

fn is_space_exec(c: char) -> (r: bool)
    ensures
        r == is_space(c),
{
    c == ' ' || c == '\t' || c == '\n' || c == '\r'
}

fn mark_exec(c: char) -> (r: Option<Token>)
    ensures
        r == mark(c),
{
    if c == '(' {
        Some(Token::LeftParen)
    } else if c == ')' {
        Some(Token::RightParen)
    } else if c == '{' {
        Some(Token::LeftBracket)
    } else if c == '}' {
        Some(Token::RightBracket)
    } else if c == '[' {
        Some(Token::LeftSquareBracket)
    } else if c == ']' {
        Some(Token::RightSquareBracket)
    } else if c == '^' {
        Some(Token::Caret)
    } else if c == '#' {
        Some(Token::Sharp)
    } else if c == '\'' {
        Some(Token::SingleQuote)
    } else {
        None
    }
}

fn ends_atom_exec(c: char) -> (r: bool)
    ensures
        r == ends_atom(c),
{
    is_space_exec(c) || mark_exec(c).is_some() || c == '"' || c == ';'
}

/// Whether `chars[start..]` spells the word `lower`, each letter in either case.
fn word_at(chars: &Vec<char>, start: usize, lower: &Vec<char>, upper: &Vec<char>) -> (r: bool)
    requires
        start <= chars@.len(),
    ensures
        r == word_ci(chars@.subrange(start as int, chars@.len() as int), lower@, upper@),
{
    let ghost t = chars@.subrange(start as int, chars@.len() as int);
    if chars.len() - start != lower.len() || lower.len() != upper.len() {
        return false;
    }
    let mut k: usize = 0;
    while k < lower.len()
        invariant
            t == chars@.subrange(start as int, chars@.len() as int),
            start <= chars@.len(),
            chars@.len() == chars.len(),
            chars@.len() - start == lower@.len(),
            t.len() == lower@.len(),
            lower@.len() == upper@.len(),
            k <= lower@.len(),
            forall|j: int| 0 <= j < k ==> (#[trigger] t[j] == lower@[j] || t[j] == upper@[j]),
        decreases lower@.len() - k,
    {
        proof {
            assert(start + k < chars@.len());
            assert(chars@.len() <= usize::MAX);
        }
        let c = chars[start + k];
        proof {
            assert(t[k as int] == c);
        }
        if c != lower[k] && c != upper[k] {
            return false;
        }
        k = k + 1;
    }
    true
}

/// Whether a float could be written as `chars`, as [`float_like`] says.
fn float_like_exec(chars: &Vec<char>) -> (r: bool)
    ensures
        r == float_like(chars@),
{
    let ghost t = chars@;
    let mut plain = true;
    let mut digit = false;
    let mut i: usize = 0;
    while i < chars.len()
        invariant
            i <= t.len(),
            t == chars@,
            plain == (forall|k: int| 0 <= k < i ==> is_number_char(#[trigger] t[k])),
            digit == (exists|k: int| 0 <= k < i && '0' <= #[trigger] t[k] && t[k] <= '9'),
        decreases t.len() - i,
    {
        let c = chars[i];
        let ghost was_plain = plain;
        let ghost had_digit = digit;
        if !(('0' <= c && c <= '9') || c == '+' || c == '-' || c == '.' || c == 'e' || c == 'E') {
            plain = false;
        }
        if '0' <= c && c <= '9' {
            digit = true;
        }
        proof {
            if plain {
                assert forall|k: int| 0 <= k < i + 1 implies is_number_char(#[trigger] t[k]) by {
                    if k < i {
                        assert(was_plain);
                    }
                }
            } else if was_plain {
                assert(!is_number_char(t[i as int]));
            } else {
                let k = choose|k: int| 0 <= k < i && !is_number_char(#[trigger] t[k]);
                assert(!is_number_char(t[k]));
            }
            if digit {
                if !had_digit {
                    assert('0' <= t[i as int] && t[i as int] <= '9');
                } else {
                    let k = choose|k: int| 0 <= k < i && '0' <= #[trigger] t[k] && t[k] <= '9';
                    assert('0' <= t[k] && t[k] <= '9');
                }
            } else {
                assert forall|k: int| 0 <= k < i + 1 implies !('0' <= #[trigger] t[k] && t[k] <= '9') by {
                    if k < i {
                        assert(!had_digit);
                    }
                }
            }
        }
        i = i + 1;
    }
    if plain && digit {
        return true;
    }
    let start: usize = if chars.len() > 0 && (chars[0] == '+' || chars[0] == '-') {
        1
    } else {
        0
    };
    proof {
        assert(unsigned(t) =~= t.subrange(start as int, t.len() as int));
    }
    word_at(chars, start, &vec!['i', 'n', 'f'], &vec!['I', 'N', 'F']) || word_at(chars, start, &vec!['n', 'a', 'n'], &vec!['N', 'A', 'N'])
        || word_at(
        chars,
        start,
        &vec!['i', 'n', 'f', 'i', 'n', 'i', 't', 'y'],
        &vec!['I', 'N', 'F', 'I', 'N', 'I', 'T', 'Y'],
    )
}

/// The token for bare atom `text`, whose characters are `chars`, given the
/// float unit's reading `float` of it, as [`atom_token`] says.
pub fn classify_atom(text: String, chars: &Vec<char>, float: Option<u64>) -> (r: Token)
    requires
        text@ == chars@,
    ensures
        r == atom_token(text, float),
{
    let n = chars.len();
    if n == 1 && chars[0] == '.' {
        proof {
            assert(chars@ =~= seq!['.']);
        }
        return Token::Dot;
    }
    if n == 4 && chars[0] == 't' && chars[1] == 'r' && chars[2] == 'u' && chars[3] == 'e' {
        proof {
            assert(chars@ =~= seq!['t', 'r', 'u', 'e']);
        }
        return Token::Boolean(true);
    }
    if n == 5 && chars[0] == 'f' && chars[1] == 'a' && chars[2] == 'l' && chars[3] == 's' && chars[4] == 'e' {
        proof {
            assert(chars@ =~= seq!['f', 'a', 'l', 's', 'e']);
        }
        return Token::Boolean(false);
    }
    if n == 3 && chars[0] == 'N' && chars[1] == 'i' && chars[2] == 'l' {
        proof {
            assert(chars@ =~= seq!['N', 'i', 'l']);
        }
        return Token::Nil;
    }
    proof {
        assert(chars@ != seq!['N', 'i', 'l']);
        assert(chars@ != seq!['.']);
        assert(chars@ != seq!['t', 'r', 'u', 'e']);
        assert(chars@ != seq!['f', 'a', 'l', 's', 'e']);
    }
    match parse_int(chars) {
        Some(i) => Token::Int64(i),
        None => if float_like_exec(chars) {
            match float {
                Some(bits) => Token::Float64(bits),
                None => Token::Symbol(text),
            }
        } else {
            Token::Symbol(text)
        },
    }
}

/// The token for bare atom `text`: the float unit is asked only where a
/// float could be written as the text.
fn classify_exec<F: Floats>(text: String, chars: &Vec<char>, fu: &F) -> (r: Token)
    requires
        text@ == chars@,
    ensures
        fits(r, Lexeme::Atom(chars@)),
{
    let float = if float_like_exec(chars) {
        fu.parse(&text)
    } else {
        None
    };
    classify_atom(text, chars, float)
}

/// Reads the tokens of the program from the reader's position to its end.
pub fn tokenize<F: Floats>(reader: &mut Reader, fu: &F) -> (r: Result<Vec<Token>, LexError>)
    ensures
        lex_from(old(reader).text(), old(reader).pos() as int) matches Ok(ls) ==> r matches Ok(ts) && all_fit(ts@, ls),
        lex_from(old(reader).text(), old(reader).pos() as int) matches Err(e) ==> r == Err::<Vec<Token>, LexError>(e),
{
    let ghost s = reader.text();
    let ghost start = reader.pos() as int;
    let mut tokens: Vec<Token> = Vec::new();
    let ghost mut done: Seq<Lexeme> = Seq::empty();
    while reader.cursor < reader.program.len()
        invariant
            reader.text() == s,
            lex_from(s, start) == prepend(done, lex_from(s, reader.pos() as int)),
            all_fit(tokens@, done),
            s == old(reader).text(),
            start == old(reader).pos() as int,
        decreases s.len() - reader.pos(),
    {
        let i = reader.cursor;
        let c = reader.program[i];
        if c == '"' {
            reader.goto_next_char();
            let mut buf = String::new();
            loop
                invariant_except_break
                    string_body(s, i + 1) == match string_body(s, reader.pos() as int) {
                        Some((t, j)) => Some((buf@ + t, j)),
                        None => None,
                    },
                invariant
                    reader.text() == s,
                    i < reader.pos() <= s.len(),
                    s[i as int] == '"',
                    lex_from(s, start) == prepend(done, lex_from(s, i as int)),
                    all_fit(tokens@, done),
                    s == old(reader).text(),
                    start == old(reader).pos() as int,
                ensures
                    reader.text() == s,
                    i < reader.pos() <= s.len(),
                    string_body(s, i + 1) == Some((buf@, reader.pos() as int)),
                    lex_from(s, start) == prepend(done, lex_from(s, i as int)),
                    all_fit(tokens@, done),
                decreases s.len() - reader.pos(),
            {
                let k = reader.cursor;
                if k >= reader.program.len() {
                    proof {
                        assert(lex_from(s, i as int) == Err::<Seq<Lexeme>, LexError>(LexError::UnterminatedString));
                    }
                    return Err(LexError::UnterminatedString);
                }
                let d = reader.program[k];
                if d == '"' {
                    proof {
                        assert(string_body(s, k as int) == Some((Seq::<char>::empty(), k + 1)));
                        assert(buf@ + Seq::<char>::empty() =~= buf@);
                        assert(string_body(s, i + 1) == Some((buf@, k + 1)));
                    }
                    reader.goto_next_char();
                    break;
                } else if d == '\\' && k + 1 < reader.program.len() && reader.program[k + 1] == '"' {
                    let e = reader.program[k + 1];
                    let ghost before = buf@;
                    push_char(&mut buf, e);
                    reader.goto_next_char();
                    reader.goto_next_char();
                    proof {
                        match string_body(s, reader.pos() as int) {
                            Some((t, j)) => {
                                assert(before + (seq![e] + t) =~= buf@ + t);
                            },
                            None => {},
                        }
                    }
                } else {
                    let ghost before = buf@;
                    push_char(&mut buf, d);
                    reader.goto_next_char();
                    proof {
                        match string_body(s, reader.pos() as int) {
                            Some((t, j)) => {
                                assert(before + (seq![d] + t) =~= buf@ + t);
                            },
                            None => {},
                        }
                    }
                }
            }
            proof {
                let j = reader.pos() as int;
                assert(string_body(s, i + 1) == Some((buf@, j)));
                assert(lex_from(s, i as int) == prepend(seq![Lexeme::Text(buf@)], lex_from(s, j)));
                let l = Lexeme::Text(buf@);
                match lex_from(s, j) {
                    Ok(x) => {
                        assert(done + (seq![l] + x) =~= done.push(l) + x);
                    },
                    Err(_) => {},
                }
                done = done.push(l);
            }
            tokens.push(Token::String(buf));
        } else if is_space_exec(c) {
            reader.goto_next_char();
        } else if c == ';' {
            reader.goto_next_char();
            while reader.cursor < reader.program.len() && reader.program[reader.cursor] != '\n'
                invariant
                    reader.text() == s,
                    i < reader.pos() <= s.len(),
                    s[i as int] == ';',
                    line_end(s, i + 1) == line_end(s, reader.pos() as int),
                    lex_from(s, start) == prepend(done, lex_from(s, i as int)),
                    all_fit(tokens@, done),
                decreases s.len() - reader.pos(),
            {
                reader.goto_next_char();
            }
        } else {
            match mark_exec(c) {
                Some(m) => {
                    proof {
                        let l = Lexeme::Mark(m);
                        match lex_from(s, i + 1) {
                            Ok(x) => {
                                assert(done + (seq![l] + x) =~= done.push(l) + x);
                            },
                            Err(_) => {},
                        }
                        done = done.push(l);
                    }
                    tokens.push(m);
                    reader.goto_next_char();
                },
                None => {
                    let mut text = String::new();
                    let mut chars: Vec<char> = Vec::new();
                    while reader.cursor < reader.program.len() && !ends_atom_exec(reader.program[reader.cursor])
                        invariant
                            reader.text() == s,
                            i <= reader.pos() <= s.len(),
                            !ends_atom(s[i as int]),
                            atom_end(s, i as int) == atom_end(s, reader.pos() as int),
                            text@ == chars@,
                            chars@ == s.subrange(i as int, reader.pos() as int),
                            lex_from(s, start) == prepend(done, lex_from(s, i as int)),
                            all_fit(tokens@, done),
                        decreases s.len() - reader.pos(),
                    {
                        let d = reader.program[reader.cursor];
                        push_char(&mut text, d);
                        chars.push(d);
                        reader.goto_next_char();
                        proof {
                            assert(chars@ =~= s.subrange(i as int, reader.pos() as int));
                        }
                    }
                    let ghost t = chars@;
                    let tok = classify_exec(text, &chars, fu);
                    proof {
                        let l = Lexeme::Atom(t);
                        match lex_from(s, reader.pos() as int) {
                            Ok(x) => {
                                assert(done + (seq![l] + x) =~= done.push(l) + x);
                            },
                            Err(_) => {},
                        }
                        done = done.push(l);
                    }
                    tokens.push(tok);
                },
            }
        }
    }
    proof {
        assert(done + Seq::<Lexeme>::empty() =~= done);
    }
    Ok(tokens)
}

} // verus!
