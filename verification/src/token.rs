//! Primitive token and sequence types for defining raster fonts.
//!
//! - [`Sequence`]: an exact, non-empty string that maps to a single glyph (`a`, `->`, `:)`).
//! - [`Token`]: one or more sequences that all resolve to the *same* glyph. Tokens model
//!   unions: `$(->|=>)` means `->` and `=>` map to the same glyph.
//!
//! Tokens are read from and written to the layout string syntax described in
//! [`grammar`](crate::grammar).
use vstd::prelude::*;
use vstd::std_specs::iter::IteratorSpec;

use crate::grammar::{
    closes_group, lemma_scan_item_shrinks, opens_group, push_nonempty, scan_group, scan_item,
    scan_single_token, escape_in_group, show_group_body, show_group_sequence, show_token, TokenModel, TokenScanError,
};
use crate::text::{chars_of, extend_chars, string_of};

verus! {

/// An exact, non-empty input pattern that maps to a glyph.
///
/// A `Sequence` is the atomic match unit used during text resolution: an exact string that can
/// be matched in the input. Multi-character sequences (`->`, `foo`) and text that looks like
/// layout syntax (`$(lit)`) are allowed.
#[derive(Clone, Debug, PartialEq, Eq, PartialOrd, Ord, Hash)]
pub struct Sequence(String);

impl View for Sequence {
    type V = Seq<char>;

    closed spec fn view(&self) -> Seq<char> {
        self.0@
    }
}

/// The character sequences of a list of [`Sequence`]s.
pub open spec fn seqs_view(v: Seq<Sequence>) -> TokenModel {
    v.map_values(|s: Sequence| s@)
}

impl Sequence {
    /// Creates a sequence from a string; `None` if the string is empty.
    pub fn new(s: &str) -> (r: Option<Self>)
        ensures
            r is None <==> s@.len() == 0,
            r matches Some(q) ==> q@ == s@,
    {
        if s.is_empty() {
            None
        } else {
            Some(Sequence(s.to_owned()))
        }
    }

    /// Creates a sequence without checking that the string is non-empty.
    pub fn new_unchecked(s: &str) -> (r: Self)
        ensures
            r@ == s@,
    {
        Sequence(s.to_owned())
    }

    /// Creates a one-character sequence.
    pub fn from_char(c: char) -> (r: Self)
        ensures
            r@ == seq![c],
    {
        let v = vec![c];
        Sequence(string_of(&v))
    }

    /// Creates a sequence holding the given characters.
    pub fn from_chars(v: &Vec<char>) -> (r: Self)
        ensures
            r@ == v@,
    {
        Sequence(string_of(v))
    }

    /// The sequence as a string slice.
    pub fn as_str(&self) -> (r: &str)
        ensures
            r@ == self@,
    {
        self.0.as_str()
    }

    /// An iterator over the characters of this sequence.
    pub fn chars(&self) -> (r: std::str::Chars<'_>)
        ensures
            IteratorSpec::remaining(&r) == self@,
    {
        self.0.as_str().chars()
    }

    /// The UTF-8 bytes of this sequence.
    pub fn bytes(&self) -> (r: &[u8])
        ensures
            r@ == vstd::utf8::encode_utf8(self@),
    {
        self.0.as_str().as_bytes()
    }

    /// The number of characters in this sequence.
    pub fn len(&self) -> (r: usize)
        ensures
            r == self@.len(),
    {
        chars_of(self.0.as_str()).len()
    }

    /// Whether this sequence has no characters (never the case for a checked sequence).
    pub fn is_empty(&self) -> (r: bool)
        ensures
            r == (self@.len() == 0),
    {
        self.0.as_str().is_empty()
    }

    /// The characters of this sequence.
    pub fn to_chars(&self) -> (r: Vec<char>)
        ensures
            r@ == self@,
    {
        chars_of(self.0.as_str())
    }

    /// Whether two sequences hold the same characters.
    pub fn same_as(&self, other: &Sequence) -> (r: bool)
        ensures
            r == (self@ == other@),
    {
        self.0 == other.0
    }

    /// A copy of this sequence.
    pub fn duplicate(&self) -> (r: Sequence)
        ensures
            r@ == self@,
    {
        Sequence(self.0.clone())
    }
}

impl Sequence {
    /// The characters of this sequence, as a string.
    pub fn to_string(&self) -> (r: String)
        ensures
            r@ == self@,
    {
        self.0.clone()
    }
}

impl From<char> for Sequence {
    fn from(c: char) -> Self {
        Sequence::from_char(c)
    }
}

impl vstd::std_specs::convert::FromSpecImpl<char> for Sequence {
    open spec fn obeys_from_spec() -> bool {
        false
    }

    open spec fn from_spec(c: char) -> Sequence {
        choose|s: Sequence| s@ == seq![c]
    }
}

/// A token is one or more [`Sequence`]s that resolve to the same glyph.
///
/// - `a`: a single-sequence token is written as a bare character.
/// - `$(->)`: a grouped token with one sequence.
/// - `$(->|=>)`: a union token with multiple sequences, separated by `|`.
///
/// `$(`, `)` and `|` are reserved and are escaped with a backslash (`\`).
#[derive(Clone, Debug, PartialEq, Eq, Hash)]
pub struct Token(Vec<Sequence>);

impl View for Token {
    type V = TokenModel;

    closed spec fn view(&self) -> TokenModel {
        seqs_view(self.0@)
    }
}

/// Why a token string could not be read.
#[derive(Clone, Debug, PartialEq, Eq, Structural)]
pub enum TokenParsingError {
    /// The input does not follow the layout syntax; `position` is the index (in characters) at
    /// which reading stopped.
    Syntax { position: usize },
    /// A token without sequences.
    EmptyToken,
    /// The input ended where a token was expected.
    UnexpectedEOI,
}

/// The error reported for a scanning failure on an input of `n` characters.
pub open spec fn token_error(n: nat, e: TokenScanError) -> TokenParsingError {
    match e {
        TokenScanError::EndOfInput => TokenParsingError::UnexpectedEOI,
        TokenScanError::Syntax(rem) => TokenParsingError::Syntax { position: (n - rem) as usize },
    }
}

/// What reading `s` as a single token yields.
pub open spec fn spec_parse_token(s: Seq<char>) -> Result<TokenModel, TokenParsingError> {
    match scan_single_token(s) {
        Ok(t) => Ok(t),
        Err(e) => Err(token_error(s.len(), e)),
    }
}

impl TokenParsingError {
    /// A description of the error.
    pub fn to_string(&self) -> (r: String)
        ensures
            r@ == match self {
                TokenParsingError::Syntax { position } => "Unexpected input at character "@
                    + crate::text::decimal(*position as nat),
                TokenParsingError::EmptyToken => "Empty token is not allowed"@,
                TokenParsingError::UnexpectedEOI => "Unexpected end of input"@,
            },
    {
        match self {
            TokenParsingError::Syntax { position } => crate::text::concat_chars(
                "Unexpected input at character ",
                &crate::text::decimal_chars(*position),
            ),
            TokenParsingError::EmptyToken => String::from_str("Empty token is not allowed"),
            TokenParsingError::UnexpectedEOI => String::from_str("Unexpected end of input"),
        }
    }
}

/// Why a token could not be turned into a single sequence.
#[derive(Debug)]
pub enum IntoSequenceError {
    /// The token holds more than one sequence; the token is handed back.
    ExpectedSingleSequence(Token),
    /// The token holds no sequence.
    EmptyToken,
}

impl IntoSequenceError {
    /// A description of the error.
    pub fn to_string(&self) -> (r: String)
        ensures
            r@ == match self {
                IntoSequenceError::ExpectedSingleSequence(t) => "Expected exactly one sequence in token, found "@
                    + show_token(t@),
                IntoSequenceError::EmptyToken => "Cannot convert empty token into a sequence"@,
            },
    {
        match self {
            IntoSequenceError::ExpectedSingleSequence(t) => crate::text::concat_chars(
                "Expected exactly one sequence in token, found ",
                &t.layout_chars(),
            ),
            IntoSequenceError::EmptyToken => String::from_str("Cannot convert empty token into a sequence"),
        }
    }
}

/// Scans a group body starting at `start` (just after `$(`); `single` tells whether the input
/// is a single token.
pub(crate) fn scan_group_at(c: &Vec<char>, start: usize, single: bool) -> (r: Result<(Vec<Sequence>, usize), usize>)
    requires
        start <= c.len(),
    ensures
        match r {
            Ok((subs, next)) => next <= c.len() && scan_group(c@.skip(start as int), seq![], seq![], single)
                == Ok::<(TokenModel, Seq<char>), nat>((seqs_view(subs@), c@.skip(next as int))),
            Err(rem) => scan_group(c@.skip(start as int), seq![], seq![], single) == Err::<
                (TokenModel, Seq<char>),
                nat,
            >(rem as nat),
        },
{
    let n = c.len();
    let mut j = start;
    let mut cur: Vec<char> = Vec::new();
    let mut subs: Vec<Sequence> = Vec::new();
    assert(seqs_view(subs@) =~= seq![]);
    while j < n
        invariant
            start <= j <= n,
            n == c.len(),
            scan_group(c@.skip(start as int), seq![], seq![], single) == scan_group(
                c@.skip(j as int),
                cur@,
                seqs_view(subs@),
                single,
            ),
        decreases n - j,
    {
        let ghost s = c@.skip(j as int);
        assert(s[0] == c@[j as int]);
        let ch = c[j];
        if ch == '\\' {
            if j + 1 == n {
                return Err(0);
            }
            assert(s[1] == c@[j + 1]);
            assert(s.skip(2) =~= c@.skip(j + 2));
            cur.push(c[j + 1]);
            j = j + 2;
        } else if ch == '|' {
            assert(s.skip(1) =~= c@.skip(j + 1));
            if cur.len() > 0 {
                let ghost prev_subs = seqs_view(subs@);
                let q = Sequence::from_chars(&cur);
                subs.push(q);
                assert(seqs_view(subs@) =~= push_nonempty(prev_subs, cur@));
            } else {
                assert(push_nonempty(seqs_view(subs@), cur@) == seqs_view(subs@));
            }
            cur = Vec::new();
            assert(cur@ =~= seq![]);
            j = j + 1;
        } else if ch == ')' && (!single || j + 1 == n) {
            assert(closes_group(s, single));
            assert(s.skip(1) =~= c@.skip(j + 1));
            if cur.len() > 0 {
                let ghost prev_subs = seqs_view(subs@);
                let q = Sequence::from_chars(&cur);
                subs.push(q);
                assert(seqs_view(subs@) =~= push_nonempty(prev_subs, cur@));
            }
            return Ok((subs, j + 1));
        } else if ch == '$' && j + 1 < n && c[j + 1] == '(' {
            assert(s[1] == c@[j + 1]);
            assert(opens_group(s));
            return Err(n - j);
        } else {
            if j + 1 < n {
                assert(s[1] == c@[j + 1]);
            }
            assert(!closes_group(s, single));
            assert(!opens_group(s));
            assert(s.skip(1) =~= c@.skip(j + 1));
            cur.push(ch);
            j = j + 1;
        }
    }
    assert(c@.skip(j as int).len() == 0);
    Err(0)
}

/// Scans one item starting at `start`; yields the token read (if any) and where reading stopped.
pub(crate) fn scan_item_at(c: &Vec<char>, start: usize, single: bool) -> (r: Result<(Option<Token>, usize), usize>)
    requires
        start < c.len(),
    ensures
        match r {
            Ok((t, next)) => next <= c.len() && scan_item(c@.skip(start as int), single) == Ok::<
                (Option<TokenModel>, Seq<char>),
                nat,
            >(
                (
                    match t {
                        Some(t) => Some(t@),
                        None => None,
                    },
                    c@.skip(next as int),
                ),
            ),
            Err(rem) => scan_item(c@.skip(start as int), single) == Err::<
                (Option<TokenModel>, Seq<char>),
                nat,
            >(rem as nat),
        },
{
    let n = c.len();
    let ghost s = c@.skip(start as int);
    assert(s[0] == c@[start as int]);
    if start + 1 < n {
        assert(s[1] == c@[start + 1]);
    }
    let ch = c[start];
    if ch == '\\' {
        if start + 1 == n {
            return Err(0);
        }
        let q = Sequence::from_char(c[start + 1]);
        let t = Token::from_sequence(q);
        assert(s.skip(2) =~= c@.skip(start + 2));
        assert(t@ =~= seq![seq![s[1]]]);
        Ok((Some(t), start + 2))
    } else if ch == '$' && start + 1 < n && c[start + 1] == '(' {
        assert(s.skip(2) =~= c@.skip(start + 2));
        match scan_group_at(c, start + 2, single) {
            Ok((subs, next)) => {
                if subs.len() == 0 {
                    Ok((None, next))
                } else {
                    let t = Token(subs);
                    Ok((Some(t), next))
                }
            },
            Err(rem) => Err(rem),
        }
    } else {
        let q = Sequence::from_char(ch);
        let t = Token::from_sequence(q);
        assert(s.skip(1) =~= c@.skip(start + 1));
        assert(t@ =~= seq![seq![s[0]]]);
        Ok((Some(t), start + 1))
    }
}

impl Token {
    /// Reads a token from its layout string form: a single character, an escaped character
    /// (`\|`), or a group (`$(a|b|c)`).
    pub fn parse(input: &str) -> (r: Result<Token, TokenParsingError>)
        ensures
            match r {
                Ok(t) => spec_parse_token(input@) == Ok::<TokenModel, TokenParsingError>(t@),
                Err(e) => spec_parse_token(input@) == Err::<TokenModel, TokenParsingError>(e),
            },
    {
        let c = chars_of(input);
        let n = c.len();
        if n == 0 {
            return Err(TokenParsingError::UnexpectedEOI);
        }
        assert(c@.skip(0) =~= c@);
        match scan_item_at(&c, 0, true) {
            Err(rem) => {
                proof {
                    lemma_scan_item_shrinks(c@, true);
                }
                Err(TokenParsingError::Syntax { position: n - rem })
            },
            Ok((t, next)) => {
                if next < n {
                    Err(TokenParsingError::Syntax { position: next })
                } else {
                    match t {
                        Some(t) => Ok(t),
                        None => Err(TokenParsingError::UnexpectedEOI),
                    }
                }
            },
        }
    }

    /// An iterator over the sequences of this token, in order.
    pub fn iter(&self) -> (r: std::slice::Iter<'_, Sequence>)
        ensures
            seqs_view(IteratorSpec::remaining(&r).unref()) == self@,
    {
        self.0.as_slice().iter()
    }

    /// The sequences of this token, in order.
    pub fn sequences(&self) -> (r: &Vec<Sequence>)
        ensures
            seqs_view(r@) == self@,
    {
        &self.0
    }

    /// The first sequence of this token, if any.
    pub fn first(&self) -> (r: Option<&Sequence>)
        ensures
            r is None <==> self@.len() == 0,
            r matches Some(q) ==> q@ == self@[0],
    {
        if self.0.len() > 0 {
            Some(&self.0[0])
        } else {
            None
        }
    }

    /// The number of sequences in this token (not the number of characters).
    pub fn len(&self) -> (r: usize)
        ensures
            r == self@.len(),
    {
        self.0.len()
    }

    /// Whether this token holds no sequence.
    pub fn is_empty(&self) -> (r: bool)
        ensures
            r == (self@.len() == 0),
    {
        self.0.len() == 0
    }

    /// A token holding the given sequences.
    pub fn from_sequences(v: Vec<Sequence>) -> (r: Token)
        ensures
            r@ == seqs_view(v@),
    {
        Token(v)
    }

    /// A token holding one sequence.
    pub fn from_sequence(q: Sequence) -> (r: Token)
        ensures
            r@ == seq![q@],
    {
        let v = vec![q];
        assert(seqs_view(v@) =~= seq![q@]);
        Token(v)
    }

    /// A token holding one one-character sequence.
    pub fn from_char(c: char) -> (r: Token)
        ensures
            r@ == seq![seq![c]],
    {
        Token::from_sequence(Sequence::from_char(c))
    }

    /// Whether two tokens hold the same sequences in the same order.
    pub fn same_as(&self, other: &Token) -> (r: bool)
        ensures
            r == (self@ == other@),
    {
        let n = self.0.len();
        if n != other.0.len() {
            assert(self@.len() != other@.len());
            return false;
        }
        let mut i: usize = 0;
        while i < n
            invariant
                n == self.0.len(),
                n == other.0.len(),
                i <= n,
                forall|k: int| 0 <= k < i ==> self@[k] == other@[k],
            decreases n - i,
        {
            if !self.0[i].same_as(&other.0[i]) {
                assert(self@[i as int] != other@[i as int]);
                return false;
            }
            i = i + 1;
        }
        assert(self@ =~= other@);
        true
    }

    /// A copy of this token.
    pub fn duplicate(&self) -> (r: Token)
        ensures
            r@ == self@,
    {
        let mut v: Vec<Sequence> = Vec::new();
        let mut i: usize = 0;
        while i < self.0.len()
            invariant
                i <= self.0.len(),
                v@.len() == i,
                forall|k: int| 0 <= k < i ==> (#[trigger] v@[k])@ == self@[k],
            decreases self.0.len() - i,
        {
            v.push(self.0[i].duplicate());
            i = i + 1;
        }
        assert(seqs_view(v@) =~= self@);
        Token(v)
    }

    /// The layout string form of this token: a token of one one-character sequence as that
    /// character (escaped when it is `\` or `$`), any other token as one group `$(...)` of its
    /// sequences separated by `|`, with `\`, `|`, `)` and `$` escaped inside it.
    pub fn to_layout_string(&self) -> (r: String)
        ensures
            r@ == show_token(self@),
    {
        let out = self.layout_chars();
        string_of(&out)
    }

    /// The characters of `to_layout_string`.
    pub(crate) fn layout_chars(&self) -> (r: Vec<char>)
        ensures
            r@ == show_token(self@),
    {
        let n = self.0.len();
        if n == 1 && self.0[0].len() == 1 {
            let q = self.0[0].to_chars();
            let c = q[0];
            let mut out: Vec<char> = Vec::new();
            if c == '\\' || c == '$' {
                out.push('\\');
            }
            out.push(c);
            assert(self@[0] =~= seq![c]);
            return out;
        }
        let mut body: Vec<char> = Vec::new();
        let mut i: usize = n;
        // Built from the back: `body` holds the written form of the sequences from `i` on.
        while i > 0
            invariant
                0 <= i <= n,
                n == self@.len(),
                i < n ==> body@ == show_group_body(self@.skip(i as int)),
                i == n ==> body@.len() == 0,
            decreases i,
        {
            i = i - 1;
            let q = self.0[i].to_chars();
            let mut piece = escaped_in_group(&q);
            let ghost tail = self@.skip(i as int + 1);
            assert(self@.skip(i as int).drop_first() =~= tail);
            assert(self@.skip(i as int)[0] == self@[i as int]);
            if i + 1 < n {
                piece.push('|');
                extend_chars(&mut piece, &body);
            } else {
                assert(self@.skip(i as int).len() == 1);
            }
            body = piece;
        }
        assert(self@.skip(0) =~= self@);
        let mut out: Vec<char> = Vec::new();
        out.push('$');
        out.push('(');
        extend_chars(&mut out, &body);
        out.push(')');
        assert(out@ =~= seq!['$', '('] + show_group_body(self@) + seq![')']);
        out
    }

    /// Turns a token with exactly one sequence into that sequence.
    pub fn into_sequence(self) -> (r: Result<Sequence, IntoSequenceError>)
        ensures
            self@.len() == 1 <==> r is Ok,
            r matches Ok(q) ==> q@ == self@[0],
            self@.len() == 0 <==> r matches Err(IntoSequenceError::EmptyToken),
            self@.len() > 1 <==> r matches Err(IntoSequenceError::ExpectedSingleSequence(_)),
            r matches Err(IntoSequenceError::ExpectedSingleSequence(t)) ==> t@ == self@,
    {
        if self.0.len() > 1 {
            Err(IntoSequenceError::ExpectedSingleSequence(self))
        } else if self.0.len() == 0 {
            Err(IntoSequenceError::EmptyToken)
        } else {
            let mut v = self.0;
            let q = v.pop();
            match q {
                Some(q) => Ok(q),
                None => Err(IntoSequenceError::EmptyToken),
            }
        }
    }
}

impl From<Vec<Sequence>> for Token {
    fn from(v: Vec<Sequence>) -> Self {
        Token(v)
    }
}

impl vstd::std_specs::convert::FromSpecImpl<Vec<Sequence>> for Token {
    open spec fn obeys_from_spec() -> bool {
        true
    }

    closed spec fn from_spec(v: Vec<Sequence>) -> Token {
        Token(v)
    }
}

impl From<Sequence> for Token {
    fn from(q: Sequence) -> Self {
        Token::from_sequence(q)
    }
}

impl vstd::std_specs::convert::FromSpecImpl<Sequence> for Token {
    open spec fn obeys_from_spec() -> bool {
        false
    }

    open spec fn from_spec(q: Sequence) -> Token {
        choose|t: Token| t@ == seq![q@]
    }
}

impl From<char> for Token {
    fn from(c: char) -> Self {
        Token::from_char(c)
    }
}

impl vstd::std_specs::convert::FromSpecImpl<char> for Token {
    open spec fn obeys_from_spec() -> bool {
        false
    }

    open spec fn from_spec(c: char) -> Token {
        choose|t: Token| t@ == seq![seq![c]]
    }
}

impl std::str::FromStr for Token {
    type Err = TokenParsingError;

    fn from_str(input: &str) -> (r: Result<Self, Self::Err>)
        ensures
            match r {
                Ok(t) => spec_parse_token(input@) == Ok::<TokenModel, TokenParsingError>(t@),
                Err(e) => spec_parse_token(input@) == Err::<TokenModel, TokenParsingError>(e),
            },
    {
        Token::parse(input)
    }
}

/// The characters of `q` as written inside a group, each reserved character behind a `\`.
fn escaped_in_group(q: &Vec<char>) -> (r: Vec<char>)
    ensures
        r@ == show_group_sequence(q@),
{
    let mut out: Vec<char> = Vec::new();
    let mut i: usize = q.len();
    while i > 0
        invariant
            i <= q@.len(),
            out@ == show_group_sequence(q@.skip(i as int)),
        decreases i,
    {
        i = i - 1;
        let c = q[i];
        let mut piece: Vec<char> = Vec::new();
        if c == '\\' || c == '|' || c == ')' || c == '$' {
            piece.push('\\');
        }
        piece.push(c);
        assert(q@.skip(i as int).drop_first() =~= q@.skip(i as int + 1));
        assert(q@.skip(i as int)[0] == c);
        assert(piece@ =~= escape_in_group(c));
        extend_chars(&mut piece, &out);
        out = piece;
    }
    assert(q@.skip(0) =~= q@);
    out
}

/// All sequences of a list of tokens, in order.
pub open spec fn flatten(ts: Seq<TokenModel>) -> Seq<Seq<char>>
    decreases ts.len(),
{
    if ts.len() == 0 {
        seq![]
    } else {
        flatten(ts.drop_last()) + ts.last()
    }
}

/// Whether `t` holds at least one sequence that is absent from `prior`.
pub open spec fn fresh_token(prior: Seq<Seq<char>>, t: TokenModel) -> bool {
    exists|j: int| 0 <= j < t.len() && !prior.contains(#[trigger] t[j])
}

/// The number of tokens that hold at least one sequence of no earlier token, reading the
/// tokens in order.
pub open spec fn count_fresh(ts: Seq<TokenModel>) -> nat
    decreases ts.len(),
{
    if ts.len() == 0 {
        0
    } else {
        count_fresh(ts.drop_last()) + if fresh_token(flatten(ts.drop_last()), ts.last()) {
            1nat
        } else {
            0nat
        }
    }
}

/// The token models of a list of token references.
pub open spec fn token_refs_view(ts: Seq<&Token>) -> Seq<TokenModel> {
    ts.map_values(|t: &Token| t@)
}

/// The character sequences of a list of sequence references.
pub open spec fn seq_refs_view(v: Seq<&Sequence>) -> Seq<Seq<char>> {
    v.map_values(|s: &Sequence| s@)
}

/// The unique sequences of a list of tokens, and the number of glyph regions they need.
#[derive(Clone, Debug, PartialEq, Eq)]
pub struct Unique<'a> {
    /// Every distinct sequence, once, in order of first appearance.
    pub sequences: Vec<&'a Sequence>,
    /// The number of tokens that hold at least one sequence of no earlier token.
    ///
    /// This is the number of glyph regions a font atlas needs: a token whose sequences all
    /// belong to earlier tokens shares their glyph.
    pub num_regions: usize,
}

/// Whether `x` is among the first `n` of the given sequence references.
fn contains_sequence(v: &Vec<&Sequence>, n: usize, x: &Sequence) -> (r: bool)
    requires
        n <= v.len(),
    ensures
        r == seq_refs_view(v@).take(n as int).contains(x@),
{
    let mut i: usize = 0;
    while i < n
        invariant
            i <= n <= v.len(),
            forall|k: int| 0 <= k < i ==> (#[trigger] v@[k])@ != x@,
        decreases n - i,
    {
        if v[i].same_as(x) {
            assert(seq_refs_view(v@).take(n as int)[i as int] == x@);
            return true;
        }
        i = i + 1;
    }
    assert forall|k: int| 0 <= k < seq_refs_view(v@).take(n as int).len() implies seq_refs_view(
        v@,
    ).take(n as int)[k] != x@ by {
        assert(v@[k]@ != x@);
    }
    false
}

impl<'a> Unique<'a> {
    /// Collects the unique sequences of `tokens`, read in order, and counts the tokens that
    /// hold a sequence of no earlier token.
    pub fn from_tokens(tokens: &Vec<&'a Token>) -> (r: Unique<'a>)
        ensures
            seq_refs_view(r.sequences@).no_duplicates(),
            forall|x: Seq<char>| #[trigger]
                seq_refs_view(r.sequences@).contains(x) <==> flatten(
                    token_refs_view(tokens@),
                ).contains(x),
            r.num_regions == count_fresh(token_refs_view(tokens@)),
    {
        let ghost ts = token_refs_view(tokens@);
        let mut sequences: Vec<&'a Sequence> = Vec::new();
        let mut num_regions: usize = 0;
        let mut i: usize = 0;
        while i < tokens.len()
            invariant
                i <= tokens.len(),
                ts == token_refs_view(tokens@),
                seq_refs_view(sequences@).no_duplicates(),
                forall|x: Seq<char>| #[trigger]
                    seq_refs_view(sequences@).contains(x) <==> flatten(ts.take(i as int)).contains(
                        x,
                    ),
                num_regions == count_fresh(ts.take(i as int)),
                num_regions <= i,
            decreases tokens.len() - i,
        {
            let token: &'a Token = tokens[i];
            let seqs: &'a Vec<Sequence> = &token.0;
            let ghost t = ts[i as int];
            let ghost prior = flatten(ts.take(i as int));
            assert(t == seqs_view(seqs@));
            let prior_len: usize = sequences.len();
            assert(seq_refs_view(sequences@).take(prior_len as int) =~= seq_refs_view(sequences@));
            let mut fresh = false;
            let mut j: usize = 0;
            while j < seqs.len()
                invariant
                    j <= seqs.len(),
                    t == seqs_view(seqs@),
                    prior_len <= sequences.len(),
                    forall|x: Seq<char>| #[trigger]
                        seq_refs_view(sequences@).take(prior_len as int).contains(x)
                            <==> prior.contains(x),
                    seq_refs_view(sequences@).no_duplicates(),
                    forall|x: Seq<char>| #[trigger]
                        seq_refs_view(sequences@).contains(x) <==> (prior + t.take(j as int)).contains(
                            x,
                        ),
                    fresh == (exists|k: int| 0 <= k < j && !prior.contains(#[trigger] t[k])),
                decreases seqs.len() - j,
            {
                let q: &'a Sequence = &seqs[j];
                assert(q@ == t[j as int]);
                let ghost before = prior + t.take(j as int);
                assert(prior + t.take(j + 1) =~= before.push(t[j as int]));
                if !contains_sequence(&sequences, prior_len, q) {
                    fresh = true;
                }
                let ghost old_view = seq_refs_view(sequences@);
                if contains_sequence(&sequences, sequences.len(), q) {
                    assert(old_view.take(old_view.len() as int) =~= old_view);
                    assert(before.contains(t[j as int]));
                    assert forall|x: Seq<char>| #[trigger]
                        seq_refs_view(sequences@).contains(x) <==> (prior + t.take(j + 1)).contains(
                            x,
                        ) by {
                        lemma_contains_push(before, t[j as int], x);
                    }
                } else {
                    assert(old_view.take(old_view.len() as int) =~= old_view);
                    sequences.push(q);
                    assert(seq_refs_view(sequences@) =~= old_view.push(q@));
                    assert(seq_refs_view(sequences@).take(prior_len as int) =~= old_view.take(
                        prior_len as int,
                    ));
                    assert forall|x: Seq<char>| #[trigger]
                        seq_refs_view(sequences@).contains(x) <==> (prior + t.take(j + 1)).contains(
                            x,
                        ) by {
                        lemma_contains_push(before, t[j as int], x);
                        lemma_contains_push(old_view, q@, x);
                    }
                    assert(seq_refs_view(sequences@).no_duplicates()) by {
                        let nv = seq_refs_view(sequences@);
                        assert forall|a: int, b: int| 0 <= a < b < nv.len() implies nv[a] != nv[b] by {
                            if b == old_view.len() {
                                assert(old_view[a] == nv[a]);
                                assert(old_view.contains(nv[a]));
                            } else {
                                assert(old_view[a] == nv[a] && old_view[b] == nv[b]);
                            }
                        }
                    }
                }
                assert(fresh == (exists|k: int| 0 <= k < j + 1 && !prior.contains(#[trigger] t[k])))
                    by {
                    if fresh {
                        if !prior.contains(t[j as int]) {
                        } else {
                            let k = choose|k: int| 0 <= k < j && !prior.contains(#[trigger] t[k]);
                        }
                    }
                }
                j = j + 1;
            }
            assert(t.take(t.len() as int) =~= t);
            assert(ts.take(i + 1).drop_last() =~= ts.take(i as int));
            assert(ts.take(i + 1).last() == t);
            assert(flatten(ts.take(i + 1)) == prior + t);
            if fresh {
                num_regions = num_regions + 1;
            }
            i = i + 1;
        }
        assert(ts.take(tokens.len() as int) =~= ts);
        Unique { sequences, num_regions }
    }
}

/// Membership in a sequence extended by one element.
pub proof fn lemma_contains_push<A>(s: Seq<A>, a: A, x: A)
    ensures
        s.push(a).contains(x) <==> (s.contains(x) || x == a),
{
    let t = s.push(a);
    if s.contains(x) {
        let k = choose|k: int| 0 <= k < s.len() && s[k] == x;
        assert(t[k] == x);
    }
    if x == a {
        assert(t[s.len() as int] == x);
    }
    if t.contains(x) {
        let k = choose|k: int| 0 <= k < t.len() && t[k] == x;
        if k < s.len() {
            assert(s[k] == x);
        }
    }
}

/// The number of glyph regions never exceeds the number of tokens.
pub proof fn lemma_count_fresh_bounded(ts: Seq<TokenModel>)
    ensures
        count_fresh(ts) <= ts.len(),
    decreases ts.len(),
{
    if ts.len() > 0 {
        lemma_count_fresh_bounded(ts.drop_last());
    }
}

/// When no sequence occurs twice in a layout and every token holds a sequence, every token
/// needs its own glyph region.
pub proof fn lemma_count_fresh_all_distinct(ts: Seq<TokenModel>)
    requires
        flatten(ts).no_duplicates(),
        forall|i: int| 0 <= i < ts.len() ==> (#[trigger] ts[i]).len() > 0,
    ensures
        count_fresh(ts) == ts.len(),
    decreases ts.len(),
{
    if ts.len() > 0 {
        let prior = flatten(ts.drop_last());
        let t = ts.last();
        let all = flatten(ts);
        assert(all == prior + t);
        assert(prior.no_duplicates()) by {
            assert forall|a: int, b: int| 0 <= a < b < prior.len() implies prior[a] != prior[b] by {
                assert(all[a] == prior[a] && all[b] == prior[b]);
            }
        }
        assert forall|i: int| 0 <= i < ts.drop_last().len() implies (
        #[trigger] ts.drop_last()[i]).len() > 0 by {
            assert(ts.drop_last()[i] == ts[i]);
        }
        lemma_count_fresh_all_distinct(ts.drop_last());
        assert(t.len() > 0) by {
            assert(ts[ts.len() - 1] == t);
        }
        if prior.contains(t[0]) {
            let k = choose|k: int| 0 <= k < prior.len() && #[trigger] prior[k] == t[0];
            assert(all[k] == prior[k]);
            assert(all[prior.len() as int] == t[0]);
        }
        assert(fresh_token(prior, t));
    }
}

} // verus!
