//! Ordered font token layouts.
//!
//! A layout string is a series of token expressions read left to right (see
//! [`grammar`](crate::grammar)). Whitespace is preserved and significant. Token order determines
//! how glyphs are associated with atlas regions: each token contributes exactly one glyph slot,
//! and may hold several input sequences mapped to that slot.
use vstd::prelude::*;
use vstd::std_specs::iter::IteratorSpec;

use crate::grammar::{
    cons_token, lemma_scan_item_shrinks, scan_layout, show_layout, show_token, TokenModel,
};
use crate::text::{chars_of, extend_chars, string_of};
use crate::token::{
    flatten, count_fresh, seq_refs_view, seqs_view, scan_item_at, token_refs_view, Sequence,
    Token, TokenParsingError, Unique,
};

verus! {

/// An ordered sequence of font tokens, commonly read from a layout string.
///
/// - Each [`Token`] is **one glyph slot**.
/// - Each [`Sequence`] inside a token is an **accepted input pattern** for that glyph.
#[derive(Clone, Debug, PartialEq, Eq, Hash)]
pub struct OrdTokenLayout(Vec<Token>);

/// The token models of a list of tokens.
pub open spec fn tokens_view(v: Seq<Token>) -> Seq<TokenModel> {
    v.map_values(|t: Token| t@)
}

impl View for OrdTokenLayout {
    type V = Seq<TokenModel>;

    closed spec fn view(&self) -> Seq<TokenModel> {
        tokens_view(self.0@)
    }
}

/// What reading `s` as a layout yields.
pub open spec fn spec_parse_layout(s: Seq<char>) -> Result<Seq<TokenModel>, TokenParsingError> {
    match scan_layout(s) {
        Ok(ts) => Ok(ts),
        Err(rem) => Err(TokenParsingError::Syntax { position: (s.len() - rem) as usize }),
    }
}

impl Default for OrdTokenLayout {
    fn default() -> (r: Self)
        ensures
            r@ == Seq::<TokenModel>::empty(),
    {
        OrdTokenLayout::new()
    }
}

impl OrdTokenLayout {
    /// An empty layout.
    pub fn new() -> (r: Self)
        ensures
            r@ == Seq::<TokenModel>::empty(),
    {
        let v: Vec<Token> = Vec::new();
        assert(tokens_view(v@) =~= Seq::<TokenModel>::empty());
        OrdTokenLayout(v)
    }

    /// A layout of the given tokens.
    pub fn from_tokens(v: Vec<Token>) -> (r: Self)
        ensures
            r@ == tokens_view(v@),
    {
        OrdTokenLayout(v)
    }

    /// The tokens of this layout, in order.
    pub fn tokens(&self) -> (r: &Vec<Token>)
        ensures
            tokens_view(r@) == self@,
    {
        &self.0
    }

    /// An iterator over the tokens of this layout, in order.
    pub fn iter_tokens(&self) -> (r: std::slice::Iter<'_, Token>)
        ensures
            tokens_view(IteratorSpec::remaining(&r).unref()) == self@,
    {
        self.0.as_slice().iter()
    }

    /// All sequences of this layout, in order; a sequence appears once per token holding it.
    pub fn iter_sequences(&self) -> (r: Vec<&Sequence>)
        ensures
            seq_refs_view(r@) == flatten(self@),
    {
        let mut out: Vec<&Sequence> = Vec::new();
        let mut i: usize = 0;
        assert(seq_refs_view(out@) =~= flatten(self@.take(0)));
        while i < self.0.len()
            invariant
                i <= self.0.len(),
                seq_refs_view(out@) == flatten(self@.take(i as int)),
            decreases self.0.len() - i,
        {
            let seqs = self.0[i].sequences();
            let ghost before = seq_refs_view(out@);
            let mut j: usize = 0;
            while j < seqs.len()
                invariant
                    j <= seqs.len(),
                    seq_refs_view(out@) == before + seqs_view(seqs@).take(j as int),
                decreases seqs.len() - j,
            {
                let ghost old_out = out@;
                let r: &Sequence = &seqs[j];
                out.push(r);
                assert(out@ == old_out.push(r));
                assert(seq_refs_view(out@) =~= seq_refs_view(old_out).push(r@));
                assert(seqs_view(seqs@)[j as int] == r@);
                assert(seqs_view(seqs@).take(j + 1) =~= seqs_view(seqs@).take(j as int).push(r@));
                j = j + 1;
                assert(seq_refs_view(out@) =~= before + seqs_view(seqs@).take(j as int));
            }
            assert(seqs_view(seqs@).take(seqs.len() as int) =~= seqs_view(seqs@));
            assert(self@.take(i + 1).drop_last() =~= self@.take(i as int));
            i = i + 1;
        }
        assert(self@.take(self.0.len() as int) =~= self@);
        out
    }

    /// The unique sequences of this layout and the number of glyph regions they need.
    pub fn unique(&self) -> (r: Unique<'_>)
        ensures
            seq_refs_view(r.sequences@).no_duplicates(),
            forall|x: Seq<char>| #[trigger]
                seq_refs_view(r.sequences@).contains(x) <==> flatten(self@).contains(x),
            r.num_regions == count_fresh(self@),
    {
        let mut refs: Vec<&Token> = Vec::new();
        let mut i: usize = 0;
        while i < self.0.len()
            invariant
                i <= self.0.len(),
                token_refs_view(refs@) == self@.take(i as int),
            decreases self.0.len() - i,
        {
            let ghost old_refs = refs@;
            let r: &Token = &self.0[i];
            refs.push(r);
            assert(token_refs_view(refs@) =~= token_refs_view(old_refs).push(r@));
            assert(self@[i as int] == r@);
            assert(self@.take(i + 1) =~= self@.take(i as int).push(r@));
            i = i + 1;
            assert(token_refs_view(refs@) =~= self@.take(i as int));
        }
        assert(self@.take(self.0.len() as int) =~= self@);
        Unique::from_tokens(&refs)
    }

    /// Appends a token and returns the layout, for chaining.
    pub fn with(self, token: Token) -> (r: Self)
        ensures
            r@ == self@.push(token@),
    {
        let mut s = self;
        s.push(token);
        s
    }

    /// Appends a token.
    pub fn push(&mut self, token: Token)
        ensures
            final(self)@ == old(self)@.push(token@),
    {
        self.0.push(token);
        assert(tokens_view(self.0@) =~= tokens_view(old(self).0@).push(token@));
    }

    /// Reads a layout string.
    pub fn try_parse(input: &str) -> (r: Result<Self, TokenParsingError>)
        ensures
            match r {
                Ok(l) => spec_parse_layout(input@) == Ok::<Seq<TokenModel>, TokenParsingError>(
                    l@,
                ),
                Err(e) => spec_parse_layout(input@) == Err::<Seq<TokenModel>, TokenParsingError>(e),
            },
    {
        let c = chars_of(input);
        let n = c.len();
        let mut tokens: Vec<Token> = Vec::new();
        let mut i: usize = 0;
        assert(c@.skip(0) =~= c@);
        assert(tokens_view(tokens@) =~= seq![]);
        while i < n
            invariant
                i <= n,
                n == c.len(),
                c@ == input@,
                scan_layout(c@) == match scan_layout(c@.skip(i as int)) {
                    Ok(ts) => Ok(tokens_view(tokens@) + ts),
                    Err(e) => Err::<Seq<TokenModel>, nat>(e),
                },
            decreases n - i,
        {
            let ghost s = c@.skip(i as int);
            proof {
                lemma_scan_item_shrinks(s, false);
            }
            match scan_item_at(&c, i, false) {
                Err(rem) => {
                    assert(scan_layout(c@) == Err::<Seq<TokenModel>, nat>(rem as nat));
                    return Err(TokenParsingError::Syntax { position: n - rem });
                },
                Ok((t, next)) => {
                    let ghost rest = c@.skip(next as int);
                    let ghost tv = match t {
                        Some(ref t) => Some(t@),
                        None => None,
                    };
                    let ghost before = tokens_view(tokens@);
                    match t {
                        Some(t) => {
                            tokens.push(t);
                            assert(tokens_view(tokens@) =~= before.push(tv.unwrap()));
                        },
                        None => {},
                    }
                    assert(next > i);
                    assert forall|ts: Seq<TokenModel>|
                        #![auto]
                        before + cons_token(tv, ts) == tokens_view(tokens@) + ts by {
                        if tv is Some {
                            assert(before + cons_token(tv, ts) =~= tokens_view(tokens@) + ts);
                        } else {
                            assert(before + cons_token(tv, ts) =~= tokens_view(tokens@) + ts);
                        }
                    }
                    i = next;
                },
            }
        }
        assert(c@.skip(n as int).len() == 0);
        assert(tokens_view(tokens@) + seq![] =~= tokens_view(tokens@));
        Ok(OrdTokenLayout(tokens))
    }

    /// Reads a layout string that is known to be well formed.
    pub fn parse(input: &str) -> (r: Self)
        requires
            scan_layout(input@) is Ok,
        ensures
            scan_layout(input@) == Ok::<Seq<TokenModel>, nat>(r@),
    {
        match OrdTokenLayout::try_parse(input) {
            Ok(l) => l,
            Err(_) => {
                assert(false);
                OrdTokenLayout::new()
            },
        }
    }

    /// The layout string form of this layout: its tokens' written forms, one after another.
    pub fn to_layout_string(&self) -> (r: String)
        ensures
            r@ == show_layout(self@),
    {
        let mut out: Vec<char> = Vec::new();
        let mut i: usize = self.0.len();
        assert(self@.skip(i as int) =~= seq![]);
        while i > 0
            invariant
                i <= self.0.len(),
                out@ == show_layout(self@.skip(i as int)),
            decreases i,
        {
            i = i - 1;
            let mut piece = self.0[i].layout_chars();
            extend_chars(&mut piece, &out);
            assert(self@.skip(i as int).drop_first() =~= self@.skip(i + 1));
            assert(self@.skip(i as int)[0] == self@[i as int]);
            out = piece;
        }
        assert(self@.skip(0) =~= self@);
        string_of(&out)
    }
}

impl std::str::FromStr for OrdTokenLayout {
    type Err = TokenParsingError;

    fn from_str(input: &str) -> (r: Result<Self, Self::Err>)
        ensures
            match r {
                Ok(l) => spec_parse_layout(input@) == Ok::<Seq<TokenModel>, TokenParsingError>(
                    l@,
                ),
                Err(e) => spec_parse_layout(input@) == Err::<Seq<TokenModel>, TokenParsingError>(e),
            },
    {
        OrdTokenLayout::try_parse(input)
    }
}

} // verus!
