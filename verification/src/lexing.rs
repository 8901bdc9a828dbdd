//! Lexical analysis: a character stream becomes a sequence of located tokens.

use std::str::Chars;
use vstd::prelude::*;
use vstd::std_specs::iter::IteratorSpec;
use vstd::utf8::encode_utf8;
use vstd::utf8::encode_scalar;

use crate::text::decimal;
use crate::text::lemma_views_push;
use crate::text::push_decimal;
use crate::text::push_text;
use crate::text::views;

verus! {

/// A position in a source file. Lines and columns count from 1.
#[derive(Debug, PartialEq, Eq)]
pub struct Location {
    pub path: String,
    pub line: usize,
    pub column: usize,
}

/// The mathematical value of a [`Location`].
pub struct LocationView {
    pub path: Seq<char>,
    pub line: int,
    pub column: int,
}

impl View for Location {
    type V = LocationView;

    open spec fn view(&self) -> LocationView {
        LocationView { path: self.path@, line: self.line as int, column: self.column as int }
    }
}

impl LocationView {
    /// The location as diagnostics show it: the path, the line and the column, separated
    /// by colons.
    pub open spec fn text(self) -> Seq<char> {
        self.path + ":"@ + decimal(self.line as nat) + ":"@ + decimal(self.column as nat)
    }
}

impl Location {
    /// The location as diagnostics show it: `path:line:column`.
    pub fn to_string(&self) -> (text: String)
        ensures
            text@ == self@.text(),
    {
        let mut text = self.path.clone();
        push_text(&mut text, ":");
        push_decimal(&mut text, self.line as u64);
        push_text(&mut text, ":");
        push_decimal(&mut text, self.column as u64);
        text
    }
}

impl Clone for Location {
    fn clone(&self) -> (copy: Self)
        ensures
            copy == *self,
    {
        Location { path: self.path.clone(), line: self.line, column: self.column }
    }
}

/// The punctuation of the language.
#[derive(Debug, Clone, Copy, PartialEq, Eq, Structural)]
pub enum Symbol {
    OpeningParenthesis,
    ClosingParenthesis,
    OpeningBrace,
    ClosingBrace,
    OpeningBracket,
    ClosingBracket,
    Comma,
    Colon,
}

/// A lexical unit: a word, or one punctuation character.
#[derive(Debug, PartialEq, Eq)]
pub enum Token {
    Word(String),
    Symbol(Symbol),
}

/// The mathematical value of a [`Token`].
pub enum TokenView {
    Word(Seq<char>),
    Symbol(Symbol),
}

impl View for Token {
    type V = TokenView;

    open spec fn view(&self) -> TokenView {
        match self {
            Token::Word(word) => TokenView::Word(word@),
            Token::Symbol(symbol) => TokenView::Symbol(*symbol),
        }
    }
}

/// A token together with the place where it starts.
#[derive(Debug, PartialEq, Eq)]
pub struct LocatedToken {
    pub location: Location,
    pub token: Token,
}

/// The mathematical value of a [`LocatedToken`].
pub struct LocatedTokenView {
    pub location: LocationView,
    pub token: TokenView,
}

impl View for LocatedToken {
    type V = LocatedTokenView;

    open spec fn view(&self) -> LocatedTokenView {
        LocatedTokenView { location: self.location@, token: self.token@ }
    }
}

/// The punctuation that a character stands for, if any.
pub open spec fn symbol_of(c: char) -> Option<Symbol> {
    if c == '(' {
        Some(Symbol::OpeningParenthesis)
    } else if c == ')' {
        Some(Symbol::ClosingParenthesis)
    } else if c == '{' {
        Some(Symbol::OpeningBrace)
    } else if c == '}' {
        Some(Symbol::ClosingBrace)
    } else if c == '[' {
        Some(Symbol::OpeningBracket)
    } else if c == ']' {
        Some(Symbol::ClosingBracket)
    } else if c == ',' {
        Some(Symbol::Comma)
    } else if c == ':' {
        Some(Symbol::Colon)
    } else {
        None
    }
}

/// The number of columns that a word takes: its length in bytes, encoded as UTF-8.
pub open spec fn width(word: Seq<char>) -> int {
    encode_utf8(word).len() as int
}

/// The mathematical value of a [`Lexer`]: its place in the source, the word it is in the
/// middle of, and whether it is inside a comment.
pub struct LexerView {
    pub path: Seq<char>,
    pub line: int,
    pub column: int,
    pub word: Option<Seq<char>>,
    pub in_comment: bool,
}

impl LexerView {
    /// The state in which the scan of a file begins.
    pub open spec fn start(path: Seq<char>) -> LexerView {
        LexerView { path, line: 1, column: 1, word: None, in_comment: false }
    }

    /// The current place in the source.
    pub open spec fn place(self) -> LocationView {
        LocationView { path: self.path, line: self.line, column: self.column }
    }

    /// The number of characters of the pending word.
    pub open spec fn pending(self) -> int {
        match self.word {
            Some(word) => word.len() as int,
            None => 0,
        }
    }

    /// The tokens that closing the pending word gives: the word, located where it began.
    pub open spec fn closing_tokens(self) -> Seq<LocatedTokenView> {
        match self.word {
            Some(word) => seq![
                LocatedTokenView { location: self.place(), token: TokenView::Word(word) },
            ],
            None => seq![],
        }
    }

    /// The state once the pending word is closed: the column has moved past it.
    pub open spec fn after_word(self) -> LexerView {
        match self.word {
            Some(word) => LexerView { column: self.column + width(word), word: None, ..self },
            None => self,
        }
    }

    /// The state after one more character.
    pub open spec fn step(self, c: char) -> LexerView {
        if self.in_comment {
            if c == '\n' {
                LexerView { in_comment: false, line: self.line + 1, column: 1, ..self }
            } else {
                LexerView { column: self.column + 1, ..self }
            }
        } else if symbol_of(c) is Some || c == ' ' {
            LexerView { column: self.after_word().column + 1, ..self.after_word() }
        } else if c == '#' {
            LexerView { in_comment: true, column: self.column + 1, ..self }
        } else if c == '\n' {
            LexerView { line: self.line + 1, column: 1, ..self.after_word() }
        } else if c == '\t' {
            LexerView { column: self.after_word().column + 4, ..self.after_word() }
        } else {
            LexerView {
                word: Some(
                    match self.word {
                        Some(word) => word.push(c),
                        None => seq![c],
                    },
                ),
                ..self
            }
        }
    }

    /// The tokens that one more character gives.
    pub open spec fn emits(self, c: char) -> Seq<LocatedTokenView> {
        if self.in_comment || c == '#' {
            seq![]
        } else if let Some(symbol) = symbol_of(c) {
            self.closing_tokens().push(
                LocatedTokenView {
                    location: self.after_word().place(),
                    token: TokenView::Symbol(symbol),
                },
            )
        } else if c == '\n' || c == '\t' || c == ' ' {
            self.closing_tokens()
        } else {
            seq![]
        }
    }

    /// The state after a run of characters.
    pub open spec fn run(self, source: Seq<char>) -> LexerView
        decreases source.len(),
    {
        if source.len() == 0 {
            self
        } else {
            self.run(source.drop_last()).step(source.last())
        }
    }

    /// The tokens that a run of characters gives.
    pub open spec fn tokens(self, source: Seq<char>) -> Seq<LocatedTokenView>
        decreases source.len(),
    {
        if source.len() == 0 {
            seq![]
        } else {
            self.tokens(source.drop_last()) + self.run(source.drop_last()).emits(source.last())
        }
    }
}

/// A word takes at most four columns for each of its characters.
pub proof fn lemma_width_bound(word: Seq<char>)
    ensures
        0 <= width(word) <= 4 * word.len(),
    decreases word.len(),
{
    if word.len() > 0 {
        lemma_width_bound(word.drop_first());
        assert(encode_scalar(word[0] as u32).len() <= 4);
    }
}

/// Scanning a text in two pieces gives the state and the tokens of scanning it whole.
pub proof fn lemma_scan_in_pieces(state: LexerView, first: Seq<char>, second: Seq<char>)
    ensures
        state.run(first + second) == state.run(first).run(second),
        state.tokens(first + second) == state.tokens(first) + state.run(first).tokens(second),
    decreases second.len(),
{
    if second.len() == 0 {
        assert(first + second =~= first);
        assert(state.tokens(first) + Seq::<LocatedTokenView>::empty() =~= state.tokens(first));
    } else {
        assert((first + second).drop_last() =~= first + second.drop_last());
        lemma_scan_in_pieces(state, first, second.drop_last());
        let middle = state.run(first);
        let before = middle.run(second.drop_last());
        assert(state.tokens(first + second) =~= state.tokens(first) + (middle.tokens(
            second.drop_last(),
        ) + before.emits(second.last())));
    }
}

/// Scanning one character gives the state and the tokens of one step.
pub proof fn lemma_scan_one(state: LexerView, c: char)
    ensures
        state.run(seq![c]) == state.step(c),
        state.tokens(seq![c]) == state.emits(c),
{
    let text = seq![c];
    assert(text.drop_last() =~= Seq::<char>::empty());
    assert(state.run(text.drop_last()) == state);
    assert(state.tokens(text.drop_last()) =~= Seq::<LocatedTokenView>::empty());
    assert(state.tokens(text) =~= state.emits(c));
}

/// Inside a comment, characters other than the line feed give no token and leave the
/// scanner inside the comment, on the same line and with the same pending word.
pub proof fn lemma_inside_comment(state: LexerView, text: Seq<char>)
    requires
        state.in_comment,
        forall|i: int| 0 <= i < text.len() ==> text[i] != '\n',
    ensures
        state.tokens(text) == Seq::<LocatedTokenView>::empty(),
        state.run(text) == (LexerView { column: state.column + text.len(), ..state }),
    decreases text.len(),
{
    if text.len() > 0 {
        lemma_inside_comment(state, text.drop_last());
    }
}

/// A comment gives no token: from `#` to the next line feed nothing is emitted, whatever
/// stands between them, and the scanner is then at the first column of the next line, with
/// the pending word it had.
pub proof fn lemma_comment_gives_no_token(state: LexerView, text: Seq<char>)
    requires
        !state.in_comment,
        forall|i: int| 0 <= i < text.len() ==> text[i] != '\n',
    ensures
        state.tokens(seq!['#'] + text + seq!['\n']) == Seq::<LocatedTokenView>::empty(),
        state.run(seq!['#'] + text + seq!['\n']) == (LexerView {
            line: state.line + 1,
            column: 1,
            ..state
        }),
{
    let opened = state.step('#');
    lemma_scan_one(state, '#');
    lemma_inside_comment(opened, text);
    lemma_scan_in_pieces(state, seq!['#'], text);
    let inside = state.run(seq!['#'] + text);
    assert((seq!['#'] + text + seq!['\n']).drop_last() =~= seq!['#'] + text);
    assert(state.tokens(seq!['#'] + text + seq!['\n']) =~= state.tokens(seq!['#'] + text)
        + inside.emits('\n'));
}

/// Outside a comment, a tab moves the column by exactly four from where the pending word
/// ends, whatever the column was.
pub proof fn lemma_tab_advances_by_four(state: LexerView)
    requires
        !state.in_comment,
    ensures
        state.step('\t').column == state.after_word().column + 4,
        state.word is None ==> state.step('\t').column == state.column + 4,
        state.step('\t').line == state.line,
{
}

/// The scanner. It keeps its place between calls of [`Lexer::tokenize`], so that a source may
/// be handed over in pieces.
pub struct Lexer {
    path: String,
    line: usize,
    column: usize,
    word: Option<String>,
    in_comment: bool,
}

impl View for Lexer {
    type V = LexerView;

    closed spec fn view(&self) -> LexerView {
        LexerView {
            path: self.path@,
            line: self.line as int,
            column: self.column as int,
            word: match self.word {
                Some(word) => Some(word@),
                None => None,
            },
            in_comment: self.in_comment,
        }
    }
}

/// The punctuation that a character stands for, if any.
fn symbol_for(c: char) -> (symbol: Option<Symbol>)
    ensures
        symbol == symbol_of(c),
{
    if c == '(' {
        Some(Symbol::OpeningParenthesis)
    } else if c == ')' {
        Some(Symbol::ClosingParenthesis)
    } else if c == '{' {
        Some(Symbol::OpeningBrace)
    } else if c == '}' {
        Some(Symbol::ClosingBrace)
    } else if c == '[' {
        Some(Symbol::OpeningBracket)
    } else if c == ']' {
        Some(Symbol::ClosingBracket)
    } else if c == ',' {
        Some(Symbol::Comma)
    } else if c == ':' {
        Some(Symbol::Colon)
    } else {
        None
    }
}

impl Lexer {
    /// A scanner at the beginning of the file `path`.
    pub fn new(path: &str) -> (lexer: Self)
        ensures
            lexer@ == LexerView::start(path@),
    {
        Self { path: path.to_owned(), line: 1, column: 1, word: None, in_comment: false }
    }

    /// Scans `source` from the current state and returns the tokens that it completes. A word
    /// that the source ends in stays pending until a later call closes it.
    pub fn tokenize(&mut self, source: Chars) -> (tokens: Vec<LocatedToken>)
        requires
            source.decrease() is Some,
            old(self)@.line + source.remaining().len() <= usize::MAX,
            old(self)@.column + 4 * (old(self)@.pending() + source.remaining().len())
                <= usize::MAX,
        ensures
            final(self)@ == old(self)@.run(source.remaining()),
            views(tokens@) == old(self)@.tokens(source.remaining()),
    {
        broadcast use vstd::string::group_string_axioms;

        let mut chars = source;
        let mut tokens: Vec<LocatedToken> = Vec::new();
        let ghost mut done: Seq<char> = Seq::empty();
        assert(views(tokens@) =~= old(self)@.tokens(done));
        loop
            invariant
                source.remaining() == done + chars.remaining(),
                chars.obeys_prophetic_iter_laws(),
                chars.decrease() is Some,
                self@ == old(self)@.run(done),
                views(tokens@) == old(self)@.tokens(done),
                self@.line + chars.remaining().len() <= usize::MAX,
                self@.column + 4 * (self@.pending() + chars.remaining().len()) <= usize::MAX,
            decreases chars.decrease()->0,
        {
            let ghost before = self@;
            let ghost emitted = views(tokens@);
            match chars.next() {
                None => {
                    assert(source.remaining() =~= done);
                    return tokens;
                },
                Some(c) => {
                    proof {
                        assert(done.push(c).drop_last() =~= done);
                        assert(source.remaining() =~= done.push(c) + chars.remaining());
                        done = done.push(c);
                        if let Some(word) = before.word {
                            lemma_width_bound(word);
                        }
                    }
                    if self.in_comment {
                        if c == '\n' {
                            self.in_comment = false;
                            self.line = self.line + 1;
                            self.column = 1;
                        } else {
                            self.column = self.column + 1;
                        }
                    } else if let Some(symbol) = symbol_for(c) {
                        self.extend_word(&mut tokens);
                        let token = self.wrap(Token::Symbol(symbol));
                        proof {
                            lemma_views_push(tokens@, token);
                        }
                        tokens.push(token);
                        self.column = self.column + 1;
                    } else if c == '#' {
                        self.in_comment = true;
                        self.column = self.column + 1;
                    } else if c == '\n' {
                        self.extend_word(&mut tokens);
                        self.line = self.line + 1;
                        self.column = 1;
                    } else if c == '\t' {
                        self.extend_word(&mut tokens);
                        self.column = self.column + 4;
                    } else if c == ' ' {
                        self.extend_word(&mut tokens);
                        self.column = self.column + 1;
                    } else {
                        match &mut self.word {
                            Some(word) => {
                                word.push(c);
                            },
                            None => {
                                let mut word = String::new();
                                word.push(c);
                                assert(word@ =~= seq![c]);
                                self.word = Some(word);
                            },
                        }
                    }
                    assert(self@ == before.step(c));
                    assert(views(tokens@) =~= emitted + before.emits(c));
                },
            }
        }
    }

    /// Closes the pending word, if there is one: emits it and moves the column past it.
    fn extend_word(&mut self, tokens: &mut Vec<LocatedToken>)
        requires
            old(self)@.column + 4 * old(self)@.pending() <= usize::MAX,
        ensures
            final(self)@ == old(self)@.after_word(),
            views(final(tokens)@) == views(old(tokens)@) + old(self)@.closing_tokens(),
    {
        let closed: Option<(String, usize)> = match &self.word {
            Some(word) => {
                proof {
                    lemma_width_bound(word@);
                }
                Some((word.clone(), word.as_str().len()))
            },
            None => None,
        };
        match closed {
            Some((word, columns)) => {
                let token = self.wrap(Token::Word(word));
                proof {
                    lemma_views_push(tokens@, token);
                }
                tokens.push(token);
                self.column = self.column + columns;
                self.word = None;
                assert(views(tokens@) =~= views(old(tokens)@) + old(self)@.closing_tokens());
            },
            None => {
                assert(views(tokens@) =~= views(old(tokens)@) + old(self)@.closing_tokens());
            },
        }
    }

    /// The token at the current place.
    fn wrap(&self, token: Token) -> (located: LocatedToken)
        ensures
            located@ == (LocatedTokenView { location: self@.place(), token: token@ }),
    {
        LocatedToken {
            token,
            location: Location { path: self.path.clone(), line: self.line, column: self.column },
        }
    }
}

} // verus!
