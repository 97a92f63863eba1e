//! The layout string grammar, stated over character sequences.
//!
//! A layout string is read left to right, one *item* at a time:
//!
//! - `\c` (a backslash followed by any character `c`) is a one-character token `c`;
//! - `$(` opens a *group*, a union of sequences separated by `|` and closed by `)`;
//!   inside a group `\c` is the literal character `c`, empty sequences are ignored, and an
//!   unescaped `$(` is an error. A group without any non-empty sequence yields no token;
//! - any other character `c` is a one-character token `c`.
//!
//! In a layout string the first unescaped `)` closes a group. When a string holds exactly one
//! token, only the `)` that ends the string closes the group, so `$(:))` is the token `:)`.
//!
//! Errors are reported by the number of characters that remained unread where scanning
//! stopped, so that the position of the error is `input length - remaining`.
use vstd::prelude::*;

verus! {

/// The model of a token: the character sequences it accepts, in order.
pub type TokenModel = Seq<Seq<char>>;

/// Whether `s` starts with the group opener `$(`.
pub open spec fn opens_group(s: Seq<char>) -> bool {
    s.len() >= 2 && s[0] == '$' && s[1] == '('
}

/// Whether `s` starts with a `)` that closes a group: any `)` in a layout, and only the last
/// character of the input when the input is a single token.
pub open spec fn closes_group(s: Seq<char>, single: bool) -> bool {
    s.len() >= 1 && s[0] == ')' && (single ==> s.len() == 1)
}

/// Appends `cur` to `subs` unless it is empty.
pub open spec fn push_nonempty(subs: TokenModel, cur: Seq<char>) -> TokenModel {
    if cur.len() == 0 {
        subs
    } else {
        subs.push(cur)
    }
}

/// Scans the body of a group (after its `$(`), with `cur` the sequence read so far and
/// `subs` the completed sequences. Yields the sequences and the input after the closing `)`.
/// `single` tells whether the input is a single token.
pub open spec fn scan_group(s: Seq<char>, cur: Seq<char>, subs: TokenModel, single: bool) -> Result<
    (TokenModel, Seq<char>),
    nat,
>
    decreases s.len(),
{
    if s.len() == 0 {
        Err(0)
    } else if s[0] == '\\' {
        if s.len() == 1 {
            Err(0)
        } else {
            scan_group(s.skip(2), cur.push(s[1]), subs, single)
        }
    } else if s[0] == '|' {
        scan_group(s.skip(1), seq![], push_nonempty(subs, cur), single)
    } else if closes_group(s, single) {
        Ok((push_nonempty(subs, cur), s.skip(1)))
    } else if opens_group(s) {
        Err(s.len())
    } else {
        scan_group(s.skip(1), cur.push(s[0]), subs, single)
    }
}

/// Scans one item at the start of a non-empty input. Yields the token read (`None` for a group
/// without sequences) and the rest of the input.
pub open spec fn scan_item(s: Seq<char>, single: bool) -> Result<(Option<TokenModel>, Seq<char>), nat>
    recommends
        s.len() > 0,
{
    if s[0] == '\\' {
        if s.len() == 1 {
            Err(0)
        } else {
            Ok((Some(seq![seq![s[1]]]), s.skip(2)))
        }
    } else if opens_group(s) {
        match scan_group(s.skip(2), seq![], seq![], single) {
            Ok((subs, rest)) => Ok((if subs.len() == 0 { None } else { Some(subs) }, rest)),
            Err(e) => Err(e),
        }
    } else {
        Ok((Some(seq![seq![s[0]]]), s.skip(1)))
    }
}

/// Scanning a group always consumes input, and errors lie within the input.
pub proof fn lemma_scan_group_shrinks(s: Seq<char>, cur: Seq<char>, subs: TokenModel, single: bool)
    ensures
        scan_group(s, cur, subs, single) matches Ok((_, rest)) ==> rest.len() < s.len(),
        scan_group(s, cur, subs, single) matches Err(e) ==> e <= s.len(),
    decreases s.len(),
{
    if s.len() == 0 {
    } else if s[0] == '\\' {
        if s.len() > 1 {
            lemma_scan_group_shrinks(s.skip(2), cur.push(s[1]), subs, single);
        }
    } else if s[0] == '|' {
        lemma_scan_group_shrinks(s.skip(1), seq![], push_nonempty(subs, cur), single);
    } else if closes_group(s, single) {
    } else if opens_group(s) {
    } else {
        lemma_scan_group_shrinks(s.skip(1), cur.push(s[0]), subs, single);
    }
}

/// Scanning an item always consumes input, and errors lie within the input.
pub proof fn lemma_scan_item_shrinks(s: Seq<char>, single: bool)
    requires
        s.len() > 0,
    ensures
        scan_item(s, single) matches Ok((_, rest)) ==> rest.len() < s.len(),
        scan_item(s, single) matches Err(e) ==> e <= s.len(),
{
    if s[0] != '\\' && opens_group(s) {
        lemma_scan_group_shrinks(s.skip(2), seq![], seq![], single);
    }
}

/// Prepends an optional token to a token list.
pub open spec fn cons_token(t: Option<TokenModel>, ts: Seq<TokenModel>) -> Seq<TokenModel> {
    match t {
        Some(t) => seq![t] + ts,
        None => ts,
    }
}

/// Scans a whole layout string into its tokens.
pub open spec fn scan_layout(s: Seq<char>) -> Result<Seq<TokenModel>, nat>
    decreases s.len(),
{
    if s.len() == 0 {
        Ok(seq![])
    } else {
        match scan_item(s, false) {
            Err(e) => Err(e),
            Ok((t, rest)) => {
                proof {
                    lemma_scan_item_shrinks(s, false);
                }
                match scan_layout(rest) {
                    Err(e) => Err(e),
                    Ok(ts) => Ok(cons_token(t, ts)),
                }
            },
        }
    }
}

/// Why a single token could not be read.
pub enum TokenScanError {
    /// The input stops where a token was expected (empty input, or a group with no sequences).
    EndOfInput,
    /// The input does not follow the grammar; the number of characters remaining at that point.
    Syntax(nat),
}

/// Scans an input that must consist of exactly one token.
pub open spec fn scan_single_token(s: Seq<char>) -> Result<TokenModel, TokenScanError> {
    if s.len() == 0 {
        Err(TokenScanError::EndOfInput)
    } else {
        match scan_item(s, true) {
            Err(e) => Err(TokenScanError::Syntax(e)),
            Ok((t, rest)) => if rest.len() > 0 {
                Err(TokenScanError::Syntax(rest.len()))
            } else {
                match t {
                    Some(t) => Ok(t),
                    None => Err(TokenScanError::EndOfInput),
                }
            },
        }
    }
}

// ----------------------------------------------------------------------------------------------
// Printing
// ----------------------------------------------------------------------------------------------

/// Whether a character is written escaped inside a group: `\`, `|` and `)` have a meaning
/// there, and `$` could start a `$(`.
pub open spec fn reserved_in_group(c: char) -> bool {
    c == '\\' || c == '|' || c == ')' || c == '$'
}

/// How a character is written inside a group: behind a `\` when it is reserved.
pub open spec fn escape_in_group(c: char) -> Seq<char> {
    if reserved_in_group(c) {
        seq!['\\', c]
    } else {
        seq![c]
    }
}

/// How a sequence is written inside a group: each character escaped where needed.
pub open spec fn show_group_sequence(s: Seq<char>) -> Seq<char>
    decreases s.len(),
{
    if s.len() == 0 {
        seq![]
    } else {
        escape_in_group(s[0]) + show_group_sequence(s.drop_first())
    }
}

/// The inside of a token's group: its sequences, written by `show_group_sequence`, separated by
/// `|`.
pub open spec fn show_group_body(t: TokenModel) -> Seq<char>
    decreases t.len(),
{
    if t.len() == 0 {
        seq![]
    } else if t.len() == 1 {
        show_group_sequence(t[0])
    } else {
        show_group_sequence(t[0]) + seq!['|'] + show_group_body(t.drop_first())
    }
}

/// How a token is written: a token of one one-character sequence as that character (behind a
/// `\` when it is `\` or `$`), any other token as one group `$(...)` of all its sequences.
pub open spec fn show_token(t: TokenModel) -> Seq<char> {
    if t.len() == 1 && t[0].len() == 1 {
        if t[0][0] == '\\' || t[0][0] == '$' {
            seq!['\\', t[0][0]]
        } else {
            t[0]
        }
    } else {
        seq!['$', '('] + show_group_body(t) + seq![')']
    }
}

/// How a layout is written: its tokens written one after another.
pub open spec fn show_layout(ts: Seq<TokenModel>) -> Seq<char>
    decreases ts.len(),
{
    if ts.len() == 0 {
        seq![]
    } else {
        show_token(ts[0]) + show_layout(ts.drop_first())
    }
}

// ----------------------------------------------------------------------------------------------
// Round trips
// ----------------------------------------------------------------------------------------------

/// A token that its written form can stand for: it has a sequence, and no sequence is empty
/// (the grammar ignores empty sequences).
pub open spec fn writable_token(t: TokenModel) -> bool {
    t.len() > 0 && forall|i: int| 0 <= i < t.len() ==> (#[trigger] t[i]).len() > 0
}

/// Scanning the written form of a sequence inside a group appends the sequence to the one
/// being read.
proof fn lemma_scan_group_sequence(
    s: Seq<char>,
    rest: Seq<char>,
    cur: Seq<char>,
    subs: TokenModel,
    single: bool,
)
    ensures
        scan_group(show_group_sequence(s) + rest, cur, subs, single) == scan_group(
            rest,
            cur + s,
            subs,
            single,
        ),
    decreases s.len(),
{
    if s.len() == 0 {
        assert(show_group_sequence(s) + rest =~= rest);
        assert(cur + s =~= cur);
    } else {
        let c = s[0];
        let tail = s.drop_first();
        let w = show_group_sequence(s) + rest;
        lemma_scan_group_sequence(tail, rest, cur.push(c), subs, single);
        assert(cur.push(c) + tail =~= cur + s);
        if reserved_in_group(c) {
            assert(w =~= seq!['\\', c] + (show_group_sequence(tail) + rest));
            assert(w[0] == '\\' && w[1] == c);
            assert(w.skip(2) =~= show_group_sequence(tail) + rest);
        } else {
            assert(w =~= seq![c] + (show_group_sequence(tail) + rest));
            assert(w[0] == c);
            assert(w.skip(1) =~= show_group_sequence(tail) + rest);
            assert(!closes_group(w, single));
            assert(!opens_group(w));
        }
    }
}

/// Scanning the written body of a group, followed by its `)`, yields the token's sequences.
proof fn lemma_scan_group_body(t: TokenModel, rest: Seq<char>, subs: TokenModel, single: bool)
    requires
        writable_token(t),
        single ==> rest.len() == 0,
    ensures
        scan_group(show_group_body(t) + seq![')'] + rest, seq![], subs, single) == Ok::<
            (TokenModel, Seq<char>),
            nat,
        >((subs + t, rest)),
    decreases t.len(),
{
    let q = t[0];
    assert(q.len() > 0);
    if t.len() == 1 {
        let after = seq![')'] + rest;
        assert(show_group_body(t) + seq![')'] + rest =~= show_group_sequence(q) + after);
        lemma_scan_group_sequence(q, after, seq![], subs, single);
        assert(seq![] + q =~= q);
        assert(after[0] == ')');
        assert(after.skip(1) =~= rest);
        assert(subs.push(q) =~= subs + t);
    } else {
        let tail = t.drop_first();
        assert(writable_token(tail)) by {
            assert forall|i: int| 0 <= i < tail.len() implies (#[trigger] tail[i]).len() > 0 by {
                assert(tail[i] == t[i + 1]);
            }
        }
        let after = seq!['|'] + (show_group_body(tail) + seq![')'] + rest);
        assert(show_group_body(t) + seq![')'] + rest =~= show_group_sequence(q) + after);
        lemma_scan_group_sequence(q, after, seq![], subs, single);
        assert(seq![] + q =~= q);
        assert(after[0] == '|');
        assert(after.skip(1) =~= show_group_body(tail) + seq![')'] + rest);
        lemma_scan_group_body(tail, rest, subs.push(q), single);
        assert(subs.push(q) + tail =~= subs + t);
    }
}

/// Scanning the written form of a token yields the token.
proof fn lemma_scan_item_token(t: TokenModel, rest: Seq<char>, single: bool)
    requires
        writable_token(t),
        single ==> rest.len() == 0,
    ensures
        scan_item(show_token(t) + rest, single) == Ok::<(Option<TokenModel>, Seq<char>), nat>(
            (Some(t), rest),
        ),
{
    let w = show_token(t) + rest;
    if t.len() == 1 && t[0].len() == 1 {
        let c = t[0][0];
        assert(seq![seq![c]] =~= t) by {
            assert(t[0] =~= seq![c]);
        }
        if c == '\\' || c == '$' {
            assert(w =~= seq!['\\', c] + rest);
            assert(w[0] == '\\' && w[1] == c);
            assert(w.skip(2) =~= rest);
        } else {
            assert(w =~= seq![c] + rest);
            assert(w[0] == c);
            assert(!opens_group(w));
            assert(w.skip(1) =~= rest);
        }
    } else {
        assert(w =~= seq!['$', '('] + (show_group_body(t) + seq![')'] + rest));
        assert(w[0] == '$' && w[1] == '(');
        assert(w.skip(2) =~= show_group_body(t) + seq![')'] + rest);
        lemma_scan_group_body(t, rest, seq![], single);
        assert(seq![] + t =~= t);
    }
}

/// Every token with a sequence and no empty sequence reads back from its written form.
pub proof fn lemma_token_round_trip(t: TokenModel)
    requires
        writable_token(t),
    ensures
        scan_single_token(show_token(t)) == Ok::<TokenModel, TokenScanError>(t),
{
    lemma_scan_item_token(t, seq![], true);
    assert(show_token(t) + seq![] =~= show_token(t));
    if show_token(t).len() == 0 {
        assert(t.len() == 1 && t[0].len() == 1);
    }
}

/// A layout whose tokens each have a sequence and no empty sequence reads back from its
/// written form.
pub proof fn lemma_layout_round_trip(ts: Seq<TokenModel>)
    requires
        forall|i: int| 0 <= i < ts.len() ==> writable_token(#[trigger] ts[i]),
    ensures
        scan_layout(show_layout(ts)) == Ok::<Seq<TokenModel>, nat>(ts),
    decreases ts.len(),
{
    if ts.len() == 0 {
        assert(ts =~= seq![]);
    } else {
        let t = ts[0];
        let tail = ts.drop_first();
        assert(writable_token(t));
        assert forall|i: int| 0 <= i < tail.len() implies writable_token(#[trigger] tail[i]) by {
            assert(tail[i] == ts[i + 1]);
        }
        let rest = show_layout(tail);
        let w = show_layout(ts);
        assert(w == show_token(t) + rest);
        lemma_scan_item_token(t, rest, false);
        lemma_layout_round_trip(tail);
        if show_token(t).len() == 0 {
            assert(t.len() == 1 && t[0].len() == 1);
        }
        assert(w.len() > 0);
        assert(seq![t] + tail =~= ts);
    }
}

} // verus!
