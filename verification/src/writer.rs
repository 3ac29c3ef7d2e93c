//! The writer: writes tokens as text, each followed by a space, and the
//! proof that the scanner reads the tokens back out of the text.

use vstd::prelude::*;
use crate::lexer::{
    digit, in_class, letter, remaining, run_length, scan_token, token_extent, tokens_from,
    whitespace, CharClass,
};
use crate::token::{eof_token, keyword_kind, SpecToken, TokenType};

verus! {

/// The text of a list of tokens: the literal of each, with a space behind
/// it.
pub open spec fn text_of(toks: Seq<SpecToken>) -> Seq<char>
    decreases toks.len(),
{
    if toks.len() == 0 {
        Seq::empty()
    } else {
        toks[0].literal.push(' ') + text_of(toks.skip(1))
    }
}

/// A token that the scanner reads back: scanned with a space behind it,
/// its literal gives the token. The end-of-input token has no text and is
/// no such token.
pub open spec fn scannable(t: SpecToken) -> bool {
    &&& t.literal.len() > 0
    &&& !whitespace(t.literal[0])
    &&& t.kind != TokenType::EOF
    &&& token_extent(t.literal.push(' '), 0) == (t.kind, t.literal.len())
}

pub open spec fn all_scannable(toks: Seq<SpecToken>) -> bool {
    forall|i: int| 0 <= i < toks.len() ==> scannable(#[trigger] toks[i])
}

/// A run is decided by the characters it holds and the one that ends it:
/// two texts that agree on those have the same run.
pub proof fn lemma_run_local(
    s1: Seq<char>,
    a: nat,
    s2: Seq<char>,
    b: nat,
    class: CharClass,
)
    requires
        a + run_length(s1, a, class) < s1.len(),
        b + run_length(s1, a, class) < s2.len(),
        s1.subrange(a as int, a as int + run_length(s1, a, class) + 1) == s2.subrange(
            b as int,
            b as int + run_length(s1, a, class) + 1,
        ),
    ensures
        run_length(s2, b, class) == run_length(s1, a, class),
    decreases s1.len() - a,
{
    let r = run_length(s1, a, class);
    let part1 = s1.subrange(a as int, a as int + r + 1);
    let part2 = s2.subrange(b as int, b as int + r + 1);
    assert(s1[a as int] == part1[0]);
    assert(s2[b as int] == part2[0]);
    if in_class(s1[a as int], class) {
        let next1 = s1.subrange(a as int + 1, a as int + r + 1);
        let next2 = s2.subrange(b as int + 1, b as int + r + 1);
        assert(next1 =~= next2) by {
            assert forall|j: int| 0 <= j < r implies next1[j] == next2[j] by {
                assert(next1[j] == part1[j + 1]);
                assert(next2[j] == part2[j + 1]);
            }
        }
        lemma_run_local(s1, a + 1, s2, b + 1, class);
    }
}

/// A run in the back part of a text is the run in that part alone.
pub proof fn lemma_run_shift(front: Seq<char>, back: Seq<char>, p: nat, class: CharClass)
    ensures
        run_length(front + back, front.len() + p, class) == run_length(back, p, class),
    decreases back.len() - p,
{
    if p < back.len() {
        assert((front + back)[front.len() as int + p] == back[p as int]);
        if in_class(back[p as int], class) {
            lemma_run_shift(front, back, p + 1, class);
        }
    }
}

/// The token that begins in the back part of a text is the token that
/// begins in that part alone.
pub proof fn lemma_extent_shift(front: Seq<char>, back: Seq<char>, p: nat)
    requires
        p < back.len(),
    ensures
        token_extent(front + back, front.len() + p) == token_extent(back, p),
{
    let s = front + back;
    let q = front.len() + p;
    assert(s[q as int] == back[p as int]);
    if p + 1 < back.len() {
        assert(s[q as int + 1] == back[p as int + 1]);
    }
    lemma_run_shift(front, back, p + 1, CharClass::Word);
    lemma_run_shift(front, back, p + 1, CharClass::Digit);
    crate::lexer::lemma_run_length_bound(back, p + 1, CharClass::Word);
    let n = 1 + run_length(back, p + 1, CharClass::Word);
    assert(s.subrange(q as int, q as int + n) =~= back.subrange(p as int, p as int + n));
}

/// The next token in the back part of a text is the next token of that
/// part alone.
pub proof fn lemma_scan_shift(front: Seq<char>, back: Seq<char>, p: nat)
    requires
        p <= back.len(),
    ensures
        scan_token(front + back, front.len() + p).0 == scan_token(back, p).0,
        scan_token(front + back, front.len() + p).1 == front.len() + scan_token(back, p).1,
{
    let s = front + back;
    lemma_run_shift(front, back, p, CharClass::Whitespace);
    crate::lexer::lemma_run_length_bound(back, p, CharClass::Whitespace);
    let start = p + run_length(back, p, CharClass::Whitespace);
    if start < back.len() {
        lemma_extent_shift(front, back, start);
        let (kind, n) = token_extent(back, start);
        crate::lexer::lemma_scan_token(back, p);
        assert(s.subrange(front.len() as int + start, front.len() as int + start + n)
            =~= back.subrange(start as int, start as int + n));
    }
}

/// The tokens of the back part of a text are the tokens of that part
/// alone.
pub proof fn lemma_tokens_shift(front: Seq<char>, back: Seq<char>, p: nat)
    requires
        p <= back.len(),
    ensures
        tokens_from(front + back, front.len() + p) == tokens_from(back, p),
    decreases remaining(back.len(), p),
{
    lemma_scan_shift(front, back, p);
    crate::lexer::lemma_scan_token(back, p);
    let (tok, next) = scan_token(back, p);
    if tok.kind != TokenType::EOF {
        lemma_tokens_shift(front, back, next);
    }
}

/// The token that a literal and the space behind it give alone, they give
/// wherever they stand at the front of a text.
pub proof fn lemma_extent_local(literal: Seq<char>, rest: Seq<char>)
    requires
        literal.len() > 0,
        token_extent(literal.push(' '), 0).1 == literal.len(),
    ensures
        token_extent(literal.push(' ') + rest, 0) == token_extent(literal.push(' '), 0),
{
    let alone = literal.push(' ');
    let s = alone + rest;
    let n = literal.len();
    assert(s[0] == alone[0]);
    assert(s[1] == alone[1]);
    let c = alone[0];
    if letter(c) {
        assert(run_length(alone, 1, CharClass::Word) == n - 1);
        assert(alone.subrange(1, n as int + 1) =~= s.subrange(1, n as int + 1));
        lemma_run_local(alone, 1, s, 1, CharClass::Word);
        assert(s.subrange(0, n as int) =~= alone.subrange(0, n as int));
    } else if digit(c) {
        assert(run_length(alone, 1, CharClass::Digit) == n - 1);
        assert(alone.subrange(1, n as int + 1) =~= s.subrange(1, n as int + 1));
        lemma_run_local(alone, 1, s, 1, CharClass::Digit);
    }
}

/// Scanning. The scanner reads out of the text of a list of tokens that
/// it can read back the tokens themselves, and the end-of-input token
/// behind them.
pub proof fn law_write_then_scan(toks: Seq<SpecToken>)
    requires
        all_scannable(toks),
    ensures
        tokens_from(text_of(toks), 0) == toks.push(eof_token()),
    decreases toks.len(),
{
    let text = text_of(toks);
    if toks.len() == 0 {
        assert(text.len() == 0);
        assert(run_length(text, 0, CharClass::Whitespace) == 0);
        assert(tokens_from(text, 0) =~= seq![eof_token()]);
        assert(toks.push(eof_token()) =~= seq![eof_token()]);
    } else {
        let t = toks[0];
        let literal = t.literal;
        let n = literal.len();
        let alone = literal.push(' ');
        let rest = text_of(toks.skip(1));
        assert(text == alone + rest);
        assert(scannable(t));
        assert(text[0] == literal[0]);
        assert(run_length(text, 0, CharClass::Whitespace) == 0);
        lemma_extent_local(literal, rest);
        assert(text.subrange(0, n as int) =~= literal);
        assert(scan_token(text, 0) == (t, n));
        assert(tokens_from(text, 0) == seq![t] + tokens_from(text, n));
        // the space behind the literal is skipped
        assert(text[n as int] == ' ');
        assert(run_length(text, n, CharClass::Whitespace) == 1 + run_length(
            text,
            n + 1,
            CharClass::Whitespace,
        ));
        assert(scan_token(text, n) == scan_token(text, n + 1));
        assert(tokens_from(text, n) == tokens_from(text, n + 1));
        lemma_tokens_shift(alone, rest, 0);
        assert forall|i: int| 0 <= i < toks.skip(1).len() implies scannable(
            #[trigger] toks.skip(1)[i],
        ) by {
            assert(toks.skip(1)[i] == toks[i + 1]);
        }
        law_write_then_scan(toks.skip(1));
        assert(seq![t] + toks.skip(1).push(eof_token()) =~= toks.push(eof_token()));
    }
}

/// A text that the scanner reads as an identifier: a letter, letters and
/// digits behind it, and no keyword.
pub open spec fn identifier_text(name: Seq<char>) -> bool {
    &&& name.len() > 0
    &&& letter(name[0])
    &&& forall|i: int| 1 <= i < name.len() ==> in_class(#[trigger] name[i], CharClass::Word)
    &&& keyword_kind(name) == TokenType::IDENT
}

/// A run lasts as long as the characters of its class do.
pub proof fn lemma_run_until(s: Seq<char>, pos: nat, k: nat, class: CharClass)
    requires
        pos + k < s.len(),
        forall|i: int| pos <= i < pos + k ==> in_class(#[trigger] s[i], class),
        !in_class(s[pos as int + k], class),
    ensures
        run_length(s, pos, class) == k,
    decreases k,
{
    if k > 0 {
        lemma_run_until(s, pos + 1, (k - 1) as nat, class);
    }
}

/// The scanner reads an identifier back.
pub proof fn lemma_identifier_scannable(name: Seq<char>)
    requires
        identifier_text(name),
    ensures
        scannable(SpecToken { kind: TokenType::IDENT, literal: name }),
{
    let s = name.push(' ');
    assert(s[0] == name[0]);
    assert forall|i: int| 1 <= i < 1 + (name.len() - 1) implies in_class(
        #[trigger] s[i],
        CharClass::Word,
    ) by {
        assert(s[i] == name[i]);
    }
    lemma_run_until(s, 1, (name.len() - 1) as nat, CharClass::Word);
    assert(s.subrange(0, name.len() as int) =~= name);
}

/// The scanner reads a run of digits back as an integer literal.
pub proof fn lemma_digits_scannable(literal: Seq<char>)
    requires
        literal.len() > 0,
        forall|i: int| 0 <= i < literal.len() ==> digit(#[trigger] literal[i]),
    ensures
        scannable(SpecToken { kind: TokenType::INT, literal: literal }),
{
    let s = literal.push(' ');
    assert(s[0] == literal[0]);
    assert(digit(literal[0]));
    assert forall|i: int| 1 <= i < 1 + (literal.len() - 1) implies in_class(
        #[trigger] s[i],
        CharClass::Digit,
    ) by {
        assert(s[i] == literal[i]);
    }
    lemma_run_until(s, 1, (literal.len() - 1) as nat, CharClass::Digit);
}

/// The scanner reads back a token of one character that is a token by
/// itself.
pub proof fn lemma_one_character_scannable(literal: Seq<char>, kind: TokenType)
    requires
        literal.len() == 1,
        token_extent(seq![literal[0], ' '], 0) == (kind, 1nat),
        kind != TokenType::EOF,
        !whitespace(literal[0]),
    ensures
        scannable(SpecToken { kind: kind, literal: literal }),
{
    assert(literal.push(' ') =~= seq![literal[0], ' ']);
}

/// The scanner reads back a token of two characters.
pub proof fn lemma_two_character_scannable(literal: Seq<char>, kind: TokenType)
    requires
        literal.len() == 2,
        token_extent(seq![literal[0], literal[1], ' '], 0) == (kind, 2nat),
        kind != TokenType::EOF,
        !whitespace(literal[0]),
    ensures
        scannable(SpecToken { kind: kind, literal: literal }),
{
    assert(literal.push(' ') =~= seq![literal[0], literal[1], ' ']);
}

/// Texts that can each be read back can be read back one behind the
/// other.
pub proof fn lemma_all_scannable_add(a: Seq<SpecToken>, b: Seq<SpecToken>)
    requires
        all_scannable(a),
        all_scannable(b),
    ensures
        all_scannable(a + b),
{
    assert forall|i: int| 0 <= i < (a + b).len() implies scannable(#[trigger] (a + b)[i]) by {
        if i < a.len() {
            assert((a + b)[i] == a[i]);
        } else {
            assert((a + b)[i] == b[i - a.len()]);
        }
    }
}

/// The text of tokens one behind the other is their texts one behind the
/// other.
pub proof fn lemma_text_of_add(a: Seq<SpecToken>, b: Seq<SpecToken>)
    ensures
        text_of(a + b) == text_of(a) + text_of(b),
    decreases a.len(),
{
    if a.len() == 0 {
        assert(a + b =~= b);
        assert(text_of(a) + text_of(b) =~= text_of(b));
    } else {
        assert((a + b)[0] == a[0]);
        assert((a + b).skip(1) =~= a.skip(1) + b);
        lemma_text_of_add(a.skip(1), b);
        assert(a[0].literal.push(' ') + (text_of(a.skip(1)) + text_of(b)) =~= (a[0].literal.push(
            ' ',
        ) + text_of(a.skip(1))) + text_of(b));
    }
}

/// The text of one token is its literal and a space.
pub proof fn lemma_text_of_one(t: SpecToken)
    ensures
        text_of(seq![t]) == t.literal.push(' '),
{
    assert(seq![t].skip(1) =~= Seq::<SpecToken>::empty());
    assert(text_of(seq![t].skip(1)) =~= Seq::<char>::empty());
    assert(seq![t][0] == t);
    assert(t.literal.push(' ') + Seq::<char>::empty() =~= t.literal.push(' '));
}

} // verus!
