//! The lexer: a finite automaton that cuts source text into tokens.
//!
//! [`scan`] says what the tokens of a text are: at each place the longest
//! lexeme that starts there. The automaton reads the text once, character by
//! character, and is proved to produce exactly those tokens.
//!
//! Which characters are letters is for Unicode to say, and the lexer asks
//! `char::is_alphabetic` for it. The automaton itself,
//! [`SimpleLexer::tokenize_classified`], takes each character together with
//! that answer, and its specification, [`scan_classified`], is stated for
//! every answer. [`SimpleLexer::tokenize`] asks and hands over.
use vstd::prelude::*;
use crate::reader::{token_views, SimpleTokenReader, TokenReader};
use crate::token::{SimpleToken, Token, TokenType, TokenView};

verus! {

/// Whether `c` has the Unicode property Alphabetic.
pub uninterp spec fn unicode_alphabetic(c: char) -> bool;

/// `char::is_alphabetic` tells whether a character has the Unicode property
/// Alphabetic. Nothing is assumed of which characters have it: only that the
/// answer depends on the character alone.
pub assume_specification[ char::is_alphabetic ](c: char) -> (r: bool)
    ensures
        r == unicode_alphabetic(c),
;

/// `String::push` appends one character to the end of a string.
pub assume_specification[ String::push ](s: &mut String, ch: char)
    ensures
        final(s)@ == old(s)@.push(ch),
;

/// `c` is one of the ten decimal digits.
pub open spec fn is_digit(c: char) -> bool {
    '0' <= c <= '9'
}

/// The kind of the token that `c` makes by itself, if it makes one.
pub open spec fn symbol(c: char) -> Option<TokenType> {
    if c == '+' {
        Some(TokenType::Plus)
    } else if c == '-' {
        Some(TokenType::Minus)
    } else if c == '*' {
        Some(TokenType::Star)
    } else if c == '/' {
        Some(TokenType::Slash)
    } else if c == ';' {
        Some(TokenType::SemiColon)
    } else if c == '(' {
        Some(TokenType::LeftParen)
    } else if c == ')' {
        Some(TokenType::RightParen)
    } else if c == '=' {
        Some(TokenType::Assignment)
    } else {
        None
    }
}

/// A character of the source text, and whether it is alphabetic.
pub type Classified = (char, bool);

/// `c` can begin a word: it is alphabetic, and neither a digit nor a
/// character that begins another kind of token.
pub open spec fn is_word_start(c: Classified) -> bool {
    !is_digit(c.0) && c.0 != '>' && symbol(c.0) is None && c.1
}

/// `c` can continue a word: it is alphabetic or a digit.
pub open spec fn is_word_char(c: Classified) -> bool {
    c.1 || is_digit(c.0)
}

/// The first index from `i` on at which `s` holds no digit.
pub open spec fn digits_end(s: Seq<Classified>, i: int) -> int
    decreases s.len() - i,
{
    if 0 <= i < s.len() && is_digit(s[i].0) {
        digits_end(s, i + 1)
    } else {
        i
    }
}

/// The first index from `i` on at which `s` holds no word character.
pub open spec fn word_end(s: Seq<Classified>, i: int) -> int
    decreases s.len() - i,
{
    if 0 <= i < s.len() && is_word_char(s[i]) {
        word_end(s, i + 1)
    } else {
        i
    }
}

/// The characters of `s` from `i` to `e` spell `int`.
pub open spec fn spells_int(s: Seq<Classified>, i: int, e: int) -> bool {
    e == i + 3 && s[i].0 == 'i' && s[i + 1].0 == 'n' && s[i + 2].0 == 't'
}

/// The characters of `s` from `i` to `e`.
pub open spec fn text_of(s: Seq<Classified>, i: int, e: int) -> Seq<char> {
    s.subrange(i, e).map_values(|c: Classified| c.0)
}

/// Where the lexeme that starts at `i` ends. A character that begins no token
/// is a lexeme of its own, which yields no token.
pub open spec fn lexeme_end(s: Seq<Classified>, i: int) -> int
    recommends
        0 <= i < s.len(),
{
    let c = s[i];
    if is_digit(c.0) {
        digits_end(s, i + 1)
    } else if c.0 == '>' {
        if i + 1 < s.len() && s[i + 1].0 == '=' {
            i + 2
        } else {
            i + 1
        }
    } else if is_word_start(c) {
        word_end(s, i + 1)
    } else {
        i + 1
    }
}

/// The kind of the token that starts at `i`, or `None` where the character
/// there begins no token.
///
/// A word is the keyword `int` where it is spelled so and another character
/// follows it; at the very end of the text it is a name.
pub open spec fn lexeme_kind(s: Seq<Classified>, i: int) -> Option<TokenType>
    recommends
        0 <= i < s.len(),
{
    let c = s[i];
    if is_digit(c.0) {
        Some(TokenType::IntLiteral)
    } else if c.0 == '>' {
        if i + 1 < s.len() && s[i + 1].0 == '=' {
            Some(TokenType::GE)
        } else {
            Some(TokenType::GT)
        }
    } else if is_word_start(c) {
        let e = word_end(s, i + 1);
        if spells_int(s, i, e) && e < s.len() {
            Some(TokenType::Int)
        } else {
            Some(TokenType::Identifier)
        }
    } else {
        symbol(c.0)
    }
}

/// The tokens of `s` from index `i` on.
pub open spec fn scan_from(s: Seq<Classified>, i: int) -> Seq<TokenView>
    decreases s.len() - i,
{
    if 0 <= i < s.len() {
        proof {
            lemma_lexeme_end_bounds(s, i);
        }
        let e = lexeme_end(s, i);
        match lexeme_kind(s, i) {
            Some(kind) => seq![TokenView { kind: Some(kind), text: text_of(s, i, e) }] + scan_from(
                s,
                e,
            ),
            None => scan_from(s, e),
        }
    } else {
        Seq::empty()
    }
}

/// The tokens of the classified text `s`.
pub open spec fn scan_classified(s: Seq<Classified>) -> Seq<TokenView> {
    scan_from(s, 0)
}

/// The characters of `text`, each with whether Unicode has it as alphabetic.
pub open spec fn classify(text: Seq<char>) -> Seq<Classified> {
    text.map_values(|c: char| (c, unicode_alphabetic(c)))
}

/// The tokens of the text `text`.
pub open spec fn scan(text: Seq<char>) -> Seq<TokenView> {
    scan_classified(classify(text))
}

/// A run of digits ends behind where it starts, within the text.
pub proof fn lemma_digits_end_bounds(s: Seq<Classified>, i: int)
    requires
        0 <= i <= s.len(),
    ensures
        i <= digits_end(s, i) <= s.len(),
    decreases s.len() - i,
{
    if i < s.len() && is_digit(s[i].0) {
        lemma_digits_end_bounds(s, i + 1);
    }
}

/// A run of word characters ends behind where it starts, within the text.
pub proof fn lemma_word_end_bounds(s: Seq<Classified>, i: int)
    requires
        0 <= i <= s.len(),
    ensures
        i <= word_end(s, i) <= s.len(),
    decreases s.len() - i,
{
    if i < s.len() && is_word_char(s[i]) {
        lemma_word_end_bounds(s, i + 1);
    }
}

/// Every lexeme holds at least one character and ends within the text.
pub proof fn lemma_lexeme_end_bounds(s: Seq<Classified>, i: int)
    requires
        0 <= i < s.len(),
    ensures
        i < lexeme_end(s, i) <= s.len(),
{
    lemma_digits_end_bounds(s, i + 1);
    lemma_word_end_bounds(s, i + 1);
}

/// Every token of a text has a kind.
pub proof fn lemma_scan_from_typed(s: Seq<Classified>, i: int)
    ensures
        forall|k: int|
            0 <= k < scan_from(s, i).len() ==> (#[trigger] scan_from(s, i)[k]).kind is Some,
    decreases s.len() - i,
{
    if 0 <= i < s.len() {
        lemma_lexeme_end_bounds(s, i);
        lemma_scan_from_typed(s, lexeme_end(s, i));
    }
}

/// Digits from `i` up to `n`, and none at `n`: the run that starts at `i`
/// ends at `n`.
pub proof fn lemma_digits_end_is(s: Seq<Classified>, i: int, n: int)
    requires
        0 <= i <= n <= s.len(),
        forall|k: int| i <= k < n ==> is_digit((#[trigger] s[k]).0),
        n < s.len() ==> !is_digit(s[n].0),
    ensures
        digits_end(s, i) == n,
    decreases n - i,
{
    if i < n {
        lemma_digits_end_is(s, i + 1, n);
    }
}

/// Word characters from `i` up to `n`, and none at `n`: the run that starts
/// at `i` ends at `n`.
pub proof fn lemma_word_end_is(s: Seq<Classified>, i: int, n: int)
    requires
        0 <= i <= n <= s.len(),
        forall|k: int| i <= k < n ==> is_word_char(#[trigger] s[k]),
        n < s.len() ==> !is_word_char(s[n]),
    ensures
        word_end(s, i) == n,
    decreases n - i,
{
    if i < n {
        lemma_word_end_is(s, i + 1, n);
    }
}

/// The states of the automaton. Each but `Initial` stands for a lexeme that
/// has been begun.
#[derive(Debug, PartialEq, Eq, Clone, Copy, Structural)]
enum DfaState {
    /// Between lexemes.
    Initial,
    /// In a word that reads `i` so far.
    IdInt1,
    /// In a word that reads `in` so far.
    IdInt2,
    /// In a word that reads `int` so far.
    IdInt3,
    /// In a word that cannot become `int`.
    Id,
    /// Behind `>`.
    GT,
    /// Behind `>=`.
    GE,
    /// Behind `=`.
    Assignment,
    /// Behind `+`.
    Plus,
    /// Behind `-`.
    Minus,
    /// Behind `*`.
    Star,
    /// Behind `/`.
    Slash,
    /// Behind `;`.
    SemiColon,
    /// Behind `(`.
    LeftParen,
    /// Behind `)`.
    RightParen,
    /// In a run of digits.
    IntLiteral,
}

/// The state that the automaton enters from `Initial` on `c`, which is
/// alphabetic or not as `alphabetic` says.
spec fn seed_state(c: char, alphabetic: bool) -> DfaState {
    if is_digit(c) {
        DfaState::IntLiteral
    } else if c == '>' {
        DfaState::GT
    } else if c == '+' {
        DfaState::Plus
    } else if c == '-' {
        DfaState::Minus
    } else if c == '*' {
        DfaState::Star
    } else if c == '/' {
        DfaState::Slash
    } else if c == ';' {
        DfaState::SemiColon
    } else if c == '(' {
        DfaState::LeftParen
    } else if c == ')' {
        DfaState::RightParen
    } else if c == '=' {
        DfaState::Assignment
    } else if alphabetic {
        if c == 'i' {
            DfaState::IdInt1
        } else {
            DfaState::Id
        }
    } else {
        DfaState::Initial
    }
}

/// The kind that a lexeme is given when `c` begins it.
spec fn seed_kind(c: char, alphabetic: bool) -> Option<TokenType> {
    if is_digit(c) {
        Some(TokenType::IntLiteral)
    } else if c == '>' {
        Some(TokenType::GT)
    } else if is_word_start((c, alphabetic)) {
        Some(TokenType::Identifier)
    } else {
        symbol(c)
    }
}

/// `c` continues the lexeme that the automaton is in.
spec fn extends(state: DfaState, c: Classified) -> bool {
    match state {
        DfaState::Id | DfaState::IdInt1 | DfaState::IdInt2 | DfaState::IdInt3 => is_word_char(c),
        DfaState::IntLiteral => is_digit(c.0),
        DfaState::GT => c.0 == '=',
        _ => false,
    }
}

/// The characters of `s` from `start` to `n` are the first ones of `int`.
spec fn begins_int(s: Seq<Classified>, start: int, n: int) -> bool {
    &&& n <= start + 3
    &&& start < n ==> s[start].0 == 'i'
    &&& start + 1 < n ==> s[start + 1].0 == 'n'
    &&& start + 2 < n ==> s[start + 2].0 == 't'
}

/// What the automaton knows in `state` when it has read `s` up to `n` and the
/// lexeme it is in began at `start` with the kind `kind`.
spec fn pending(
    s: Seq<Classified>,
    start: int,
    n: int,
    state: DfaState,
    kind: Option<TokenType>,
) -> bool {
    match state {
        DfaState::Initial => start == n,
        DfaState::Id => {
            &&& start < n
            &&& is_word_start(s[start])
            &&& forall|k: int| start < k < n ==> is_word_char(#[trigger] s[k])
            &&& !begins_int(s, start, n)
            &&& kind == Some(TokenType::Identifier)
        },
        DfaState::IdInt1 => {
            &&& n == start + 1
            &&& is_word_start(s[start])
            &&& begins_int(s, start, n)
            &&& kind == Some(TokenType::Identifier)
        },
        DfaState::IdInt2 => {
            &&& n == start + 2
            &&& is_word_start(s[start])
            &&& is_word_char(s[start + 1])
            &&& begins_int(s, start, n)
            &&& kind == Some(TokenType::Identifier)
        },
        DfaState::IdInt3 => {
            &&& n == start + 3
            &&& is_word_start(s[start])
            &&& is_word_char(s[start + 1])
            &&& is_word_char(s[start + 2])
            &&& begins_int(s, start, n)
            &&& kind == Some(TokenType::Identifier)
        },
        DfaState::IntLiteral => {
            &&& start < n
            &&& forall|k: int| start <= k < n ==> is_digit((#[trigger] s[k]).0)
            &&& kind == Some(TokenType::IntLiteral)
        },
        DfaState::GT => n == start + 1 && s[start].0 == '>' && kind == Some(TokenType::GT),
        DfaState::GE => {
            &&& n == start + 2
            &&& s[start].0 == '>'
            &&& s[start + 1].0 == '='
            &&& kind == Some(TokenType::GE)
        },
        _ => {
            &&& n == start + 1
            &&& symbol(s[start].0) is Some
            &&& kind == symbol(s[start].0)
            &&& state == seed_state(s[start].0, s[start].1)
        },
    }
}

/// The lexeme that the automaton is in is complete once the next character
/// does not continue it: it ends at `n`, with the kind it was given, or as
/// the keyword where it spells `int`.
proof fn lemma_lexeme_complete(
    s: Seq<Classified>,
    start: int,
    n: int,
    state: DfaState,
    kind: Option<TokenType>,
)
    requires
        0 <= start < n < s.len(),
        pending(s, start, n, state, kind),
        !extends(state, s[n]),
    ensures
        lexeme_end(s, start) == n,
        lexeme_kind(s, start) == if state == DfaState::IdInt3 {
            Some(TokenType::Int)
        } else {
            kind
        },
{
    match state {
        DfaState::Id | DfaState::IdInt1 | DfaState::IdInt2 | DfaState::IdInt3 => {
            lemma_word_end_is(s, start + 1, n);
        },
        DfaState::IntLiteral => {
            lemma_digits_end_is(s, start + 1, n);
        },
        _ => {},
    }
}

/// At the end of the text the lexeme that the automaton is in is complete,
/// with the kind it was given.
proof fn lemma_lexeme_complete_at_end(
    s: Seq<Classified>,
    start: int,
    state: DfaState,
    kind: Option<TokenType>,
)
    requires
        0 <= start < s.len(),
        pending(s, start, s.len() as int, state, kind),
    ensures
        lexeme_end(s, start) == s.len(),
        lexeme_kind(s, start) == kind,
{
    let n = s.len() as int;
    match state {
        DfaState::Id | DfaState::IdInt1 | DfaState::IdInt2 | DfaState::IdInt3 => {
            lemma_word_end_is(s, start + 1, n);
        },
        DfaState::IntLiteral => {
            lemma_digits_end_is(s, start + 1, n);
        },
        _ => {},
    }
}

/// Tells whether `c` is a decimal digit.
pub fn is_ascii_digit(c: char) -> (r: bool)
    ensures
        r == is_digit(c),
{
    '0' <= c && c <= '9'
}

/// Completes the lexeme in `token_text`, if there is one, as a token of the
/// kind of `token`, and begins the next lexeme with `ch`, which is alphabetic
/// or not as `alphabetic` says.
///
/// Returns the state entered on `ch` and a token of the kind that `ch`
/// begins. `token_text` is left holding `ch`, or nothing where `ch` begins no
/// token.
fn init_token(
    ch: char,
    alphabetic: bool,
    token_text: &mut String,
    tokens: &mut Vec<SimpleToken>,
    token: SimpleToken,
) -> (next: (DfaState, SimpleToken))
    requires
        old(token_text)@.len() > 0 ==> token@.kind is Some,
    ensures
        token_views(final(tokens)@) == if old(token_text)@.len() > 0 {
            token_views(old(tokens)@).push(
                TokenView { kind: token@.kind, text: old(token_text)@ },
            )
        } else {
            token_views(old(tokens)@)
        },
        final(token_text)@ == if seed_kind(ch, alphabetic) is Some {
            seq![ch]
        } else {
            Seq::<char>::empty()
        },
        next.0 == seed_state(ch, alphabetic),
        next.1@ == (TokenView { kind: seed_kind(ch, alphabetic), text: Seq::empty() }),
{
    if !token_text.as_str().is_empty() {
        let done = SimpleToken::new2(token.get_type(), token_text.clone());
        proof {
            assert(token_views(tokens@.push(done)) =~= token_views(tokens@).push(done@));
        }
        tokens.push(done);
        *token_text = String::new();
    }
    let kind: TokenType;
    let new_state: DfaState;
    if is_ascii_digit(ch) {
        new_state = DfaState::IntLiteral;
        kind = TokenType::IntLiteral;
    } else if ch == '>' {
        new_state = DfaState::GT;
        kind = TokenType::GT;
    } else if ch == '+' {
        new_state = DfaState::Plus;
        kind = TokenType::Plus;
    } else if ch == '-' {
        new_state = DfaState::Minus;
        kind = TokenType::Minus;
    } else if ch == '*' {
        new_state = DfaState::Star;
        kind = TokenType::Star;
    } else if ch == '/' {
        new_state = DfaState::Slash;
        kind = TokenType::Slash;
    } else if ch == ';' {
        new_state = DfaState::SemiColon;
        kind = TokenType::SemiColon;
    } else if ch == '(' {
        new_state = DfaState::LeftParen;
        kind = TokenType::LeftParen;
    } else if ch == ')' {
        new_state = DfaState::RightParen;
        kind = TokenType::RightParen;
    } else if ch == '=' {
        new_state = DfaState::Assignment;
        kind = TokenType::Assignment;
    } else if alphabetic {
        if ch == 'i' {
            new_state = DfaState::IdInt1;
        } else {
            new_state = DfaState::Id;
        }
        kind = TokenType::Identifier;
    } else {
        return (DfaState::Initial, SimpleToken::new());
    }
    token_text.push(ch);
    (new_state, SimpleToken::new2(kind, String::new()))
}

/// The lexer. It holds no state between calls.
#[derive(Debug)]
pub struct SimpleLexer {}

impl SimpleLexer {
    /// A lexer.
    pub fn new() -> Self {
        SimpleLexer {  }
    }

    /// Cuts `script` into its tokens and returns a stream positioned at the
    /// first of them. Characters that begin no token are passed over.
    pub fn tokenize(&self, script: &str) -> (reader: SimpleTokenReader)
        ensures
            reader.tokens() == scan(script@),
            reader.position() == 0,
    {
        broadcast use vstd::string::group_string_axioms;

        let mut chars: Vec<Classified> = Vec::new();
        for ch in it: script.chars()
            invariant
                it.seq() == script@,
                chars@ == classify(script@.take(it.index())),
        {
            proof {
                let n = it.index();
                assert(classify(script@.take(n + 1)) =~= classify(script@.take(n)).push(
                    (ch, unicode_alphabetic(ch)),
                ));
            }
            chars.push((ch, ch.is_alphabetic()));
        }
        assert(script@.take(script@.len() as int) =~= script@);
        self.tokenize_classified(&chars)
    }

    /// Cuts a text into its tokens and returns a stream positioned at the
    /// first of them. `chars` holds the characters of the text, each with
    /// whether it counts as alphabetic. Characters that begin no token are
    /// passed over.
    pub fn tokenize_classified(&self, chars: &Vec<Classified>) -> (reader: SimpleTokenReader)
        ensures
            reader.tokens() == scan_classified(chars@),
            reader.position() == 0,
    {
        let ghost s = chars@;
        let mut state = DfaState::Initial;
        let mut token_text = String::new();
        let mut tokens: Vec<SimpleToken> = Vec::new();
        let mut token = SimpleToken::new();
        assert(token_views(tokens@) =~= Seq::empty());
        assert(text_of(s, 0, 0) =~= Seq::empty());
        let mut i: usize = 0;
        while i < chars.len()
            invariant
                s == chars@,
                i <= chars.len(),
                token_text@.len() <= i,
                token_text@ == text_of(s, i - token_text@.len(), i as int),
                token@.text.len() == 0,
                pending(s, i - token_text@.len(), i as int, state, token@.kind),
                token_views(tokens@) + scan_from(s, i - token_text@.len()) == scan_classified(s),
            decreases chars.len() - i,
        {
            let ghost n = i as int;
            let ghost start = n - token_text@.len();
            let (ch, alphabetic) = chars[i];
            let grows = match state {
                DfaState::Id | DfaState::IdInt1 | DfaState::IdInt2 | DfaState::IdInt3 => {
                    alphabetic || is_ascii_digit(ch)
                },
                DfaState::IntLiteral => is_ascii_digit(ch),
                DfaState::GT => ch == '=',
                _ => false,
            };
            assert(grows == extends(state, s[n]));
            if grows {
                token_text.push(ch);
                assert(token_text@ =~= text_of(s, start, n + 1));
                match state {
                    DfaState::IdInt1 => {
                        state = if ch == 'n' {
                            DfaState::IdInt2
                        } else {
                            DfaState::Id
                        };
                    },
                    DfaState::IdInt2 => {
                        state = if ch == 't' {
                            DfaState::IdInt3
                        } else {
                            DfaState::Id
                        };
                    },
                    DfaState::IdInt3 => {
                        state = DfaState::Id;
                    },
                    DfaState::GT => {
                        token = SimpleToken::new2(TokenType::GE, String::new());
                        state = DfaState::GE;
                    },
                    _ => {},
                }
            } else {
                let ghost before = token_views(tokens@);
                proof {
                    if start < n {
                        lemma_lexeme_complete(s, start, n, state, token@.kind);
                    }
                }
                if let DfaState::IdInt3 = state {
                    token = SimpleToken::new2(TokenType::Int, String::new());
                }
                let ghost done = TokenView { kind: token@.kind, text: token_text@ };
                let next = init_token(ch, alphabetic, &mut token_text, &mut tokens, token);
                state = next.0;
                token = next.1;
                proof {
                    if start < n {
                        assert(scan_from(s, start) == seq![done] + scan_from(s, n));
                        assert(before.push(done) + scan_from(s, n) =~= before + (seq![done]
                            + scan_from(s, n)));
                    }
                    assert(token_views(tokens@) + scan_from(s, n) == scan_classified(s));
                    if seed_kind(ch, alphabetic) is Some {
                        assert(token_text@ =~= text_of(s, n, n + 1));
                    } else {
                        assert(scan_from(s, n) == scan_from(s, n + 1));
                        assert(token_text@ =~= text_of(s, n + 1, n + 1));
                    }
                }
            }
            i += 1;
        }
        let ghost before = token_views(tokens@);
        let ghost start = s.len() - token_text@.len();
        if !token_text.as_str().is_empty() {
            let done = SimpleToken::new2(token.get_type(), token_text);
            proof {
                lemma_lexeme_complete_at_end(s, start, state, done@.kind);
                assert(scan_from(s, s.len() as int) =~= Seq::empty());
                assert(scan_from(s, start) == seq![done@] + scan_from(s, s.len() as int));
                assert(scan_from(s, start) =~= seq![done@]);
                assert(token_views(tokens@.push(done)) =~= before.push(done@));
                assert(before.push(done@) =~= before + seq![done@]);
            }
            tokens.push(done);
        } else {
            assert(before + scan_from(s, start) =~= before);
        }
        SimpleTokenReader::new(tokens)
    }
}

} // verus!
