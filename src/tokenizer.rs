use vstd::prelude::*;
use crate::chars::{
    CharClass, alphanumeric, class_of, classes_of, classify_all, push_char, whitespace,
};

verus! {

/// The kind of a token.
#[derive(Clone, Copy, Debug, PartialEq, Eq, Structural)]
pub enum TokenType {
    /// A maximal run of alphanumeric characters and underscores.
    Word,
    /// A maximal run of whitespace other than line feed and tab.
    Space,
    /// One horizontal tab.
    Tab,
    /// One line feed.
    Newline,
    /// One character that is none of the others.
    Punctuation,
    /// A `#` with only whitespace before it on its line.
    MarkdownHeader,
    /// The pair `**`.
    MarkdownBold,
    /// A single `*`.
    MarkdownItalic,
    /// Reserved for other markers; never produced.
    MarkdownOther,
}

/// A piece of the input text and its kind.
#[derive(Debug)]
pub struct Token {
    pub text: String,
    pub token_type: TokenType,
}

/// The mathematical form of a token: its characters and its kind.
pub type TokenView = (Seq<char>, TokenType);

impl View for Token {
    type V = TokenView;

    open spec fn view(&self) -> TokenView {
        (self.text@, self.token_type)
    }
}

/// The views of a sequence of tokens.
pub open spec fn views(ts: Seq<Token>) -> Seq<TokenView> {
    ts.map_values(|t: Token| t@)
}

/// A character that may stand in a Word token.
pub open spec fn is_word_class(c: CharClass) -> bool {
    c.alphanumeric || c.ch == '_'
}

/// A character that may stand in a Space token.
pub open spec fn is_space_class(c: CharClass) -> bool {
    c.whitespace && c.ch != '\n' && c.ch != '\t'
}

/// Whether everything on the last line of `cs` (after its last line feed) is whitespace.
pub open spec fn line_blank(cs: Seq<CharClass>) -> bool
    decreases cs.len(),
{
    if cs.len() == 0 {
        true
    } else if cs.last().ch == '\n' {
        true
    } else {
        cs.last().whitespace && line_blank(cs.drop_last())
    }
}

/// Whether the last token of `ts` exists and has kind `k`.
pub open spec fn ends_with_kind(ts: Seq<TokenView>, k: TokenType) -> bool {
    ts.len() > 0 && ts.last().1 == k
}

/// The tokens of the classified text `cs`, read left to right.
///
/// Each character is handled in the order of priority: a `*` right after a
/// lone `*` token turns it into `**`, else starts a lone `*`; a `#` on a line
/// that is blank so far is a header mark; line feed and tab stand alone; a
/// space or word character joins a run of its kind that ends the text so far,
/// or starts one; anything else is punctuation of its own.
pub open spec fn tokens_of(cs: Seq<CharClass>) -> Seq<TokenView>
    decreases cs.len(),
{
    if cs.len() == 0 {
        Seq::empty()
    } else {
        let prev = cs.drop_last();
        let c = cs.last();
        let ts = tokens_of(prev);
        let one = seq![c.ch];
        if c.ch == '*' {
            if ends_with_kind(ts, TokenType::MarkdownItalic) {
                ts.drop_last().push((seq!['*', '*'], TokenType::MarkdownBold))
            } else {
                ts.push((one, TokenType::MarkdownItalic))
            }
        } else if c.ch == '#' && line_blank(prev) {
            ts.push((one, TokenType::MarkdownHeader))
        } else if c.ch == '\n' {
            ts.push((one, TokenType::Newline))
        } else if c.ch == '\t' {
            ts.push((one, TokenType::Tab))
        } else if is_space_class(c) {
            if ends_with_kind(ts, TokenType::Space) {
                ts.drop_last().push((ts.last().0.push(c.ch), TokenType::Space))
            } else {
                ts.push((one, TokenType::Space))
            }
        } else if is_word_class(c) {
            if ends_with_kind(ts, TokenType::Word) {
                ts.drop_last().push((ts.last().0.push(c.ch), TokenType::Word))
            } else {
                ts.push((one, TokenType::Word))
            }
        } else {
            ts.push((one, TokenType::Punctuation))
        }
    }
}

/// The tokens of a text, each character classified by the standard library.
pub open spec fn tokenize_spec(s: Seq<char>) -> Seq<TokenView> {
    tokens_of(classes_of(s))
}

/// Starts a token of one character.
fn single(c: char, k: TokenType) -> (r: Token)
    ensures
        r@ == (seq![c], k),
{
    let mut text = String::new();
    push_char(&mut text, c);
    Token { text, token_type: k }
}

/// Splits classified characters into tokens.
pub fn tokenize_classes(cs: &Vec<CharClass>) -> (r: Vec<Token>)
    ensures
        views(r@) == tokens_of(cs@),
{
    let mut done: Vec<Token> = Vec::new();
    let mut cur: Option<Token> = None;
    let mut blank: bool = true;
    let mut i: usize = 0;
    while i < cs.len()
        invariant
            0 <= i <= cs.len(),
            blank == line_blank(cs@.take(i as int)),
            cur is None ==> views(done@) == tokens_of(cs@.take(i as int)),
            cur is Some ==> views(done@).push(cur->0@) == tokens_of(cs@.take(i as int)),
            cur is None ==> i == 0,
        decreases cs.len() - i,
    {
        let c = cs[i];
        assert(cs@.take(i as int + 1).drop_last() =~= cs@.take(i as int));
        assert(cs@.take(i as int + 1).last() == c);
        // The pending token either grows by `c`, or is replaced by `next`, or
        // is finished and `next` becomes the pending one.
        let next: Token;
        let mut grow: bool = false;
        let mut replace: bool = false;
        if c.ch == '*' {
            let lone = match &cur {
                Some(t) => t.token_type == TokenType::MarkdownItalic,
                None => false,
            };
            if lone {
                let mut text = String::new();
                push_char(&mut text, '*');
                push_char(&mut text, '*');
                assert(text@ =~= seq!['*', '*']);
                next = Token { text, token_type: TokenType::MarkdownBold };
                replace = true;
            } else {
                next = single(c.ch, TokenType::MarkdownItalic);
            }
        } else if c.ch == '#' && blank {
            next = single(c.ch, TokenType::MarkdownHeader);
        } else if c.ch == '\n' {
            next = single(c.ch, TokenType::Newline);
        } else if c.ch == '\t' {
            next = single(c.ch, TokenType::Tab);
        } else if c.whitespace && c.ch != '\n' && c.ch != '\t' {
            next = single(c.ch, TokenType::Space);
            grow = match &cur {
                Some(t) => t.token_type == TokenType::Space,
                None => false,
            };
        } else if c.alphanumeric || c.ch == '_' {
            next = single(c.ch, TokenType::Word);
            grow = match &cur {
                Some(t) => t.token_type == TokenType::Word,
                None => false,
            };
        } else {
            next = single(c.ch, TokenType::Punctuation);
        }
        proof {
            if cur is Some {
                assert(views(done@).push(cur->0@).drop_last() =~= views(done@));
            }
        }
        if grow {
            let mut t = cur.take().unwrap();
            push_char(&mut t.text, c.ch);
            cur = Some(t);
        } else if replace {
            cur = Some(next);
        } else {
            match cur.take() {
                Some(t) => {
                    done.push(t);
                },
                None => {},
            }
            cur = Some(next);
        }
        blank = if c.ch == '\n' { true } else { c.whitespace && blank };
        proof {
            assert(views(done@.push(cur->0)) =~= views(done@).push(cur->0@));
        }
        i = i + 1;
    }
    match cur {
        Some(t) => {
            proof {
                assert(views(done@.push(t)) =~= views(done@).push(t@));
            }
            done.push(t);
        },
        None => {},
    }
    assert(cs@.take(cs.len() as int) =~= cs@);
    done
}

/// Splits a text into tokens.
pub fn tokenize(text: &str) -> (r: Vec<Token>)
    ensures
        views(r@) == tokenize_spec(text@),
{
    let cs = classify_all(text);
    tokenize_classes(&cs)
}


/// The texts of `ts` joined in order.
pub open spec fn joined(ts: Seq<TokenView>) -> Seq<char>
    decreases ts.len(),
{
    if ts.len() == 0 {
        Seq::empty()
    } else {
        joined(ts.drop_last()) + ts.last().0
    }
}

/// A character that `char::is_alphanumeric` accepts, or an underscore.
pub open spec fn word_char(c: char) -> bool {
    alphanumeric(c) || c == '_'
}

/// A character that `char::is_whitespace` accepts, other than line feed and tab.
pub open spec fn space_char(c: char) -> bool {
    whitespace(c) && c != '\n' && c != '\t'
}

/// The shape that each single token has.
pub open spec fn token_shaped(t: TokenView) -> bool {
    &&& t.0.len() > 0
    &&& t.1 == TokenType::Word ==> forall|j: int| 0 <= j < t.0.len() ==> word_char(#[trigger] t.0[j])
    &&& t.1 == TokenType::Space ==> forall|j: int| 0 <= j < t.0.len() ==> space_char(#[trigger] t.0[j])
    &&& t.1 == TokenType::Tab ==> t.0 == seq!['\t']
    &&& t.1 == TokenType::Newline ==> t.0 == seq!['\n']
    &&& t.1 == TokenType::MarkdownHeader ==> t.0 == seq!['#']
    &&& t.1 == TokenType::MarkdownBold ==> t.0 == seq!['*', '*']
    &&& t.1 == TokenType::MarkdownItalic ==> t.0 == seq!['*']
    &&& t.1 == TokenType::Punctuation ==> t.0.len() == 1
    &&& t.1 != TokenType::MarkdownOther
}

/// Whether two neighbouring tokens could have been one run.
pub open spec fn mergeable(a: TokenView, b: TokenView) -> bool {
    (a.1 == TokenType::Word && b.1 == TokenType::Word) || (a.1 == TokenType::Space && b.1
        == TokenType::Space)
}

/// Every token is shaped and no two neighbours could have been one run.
pub open spec fn tokens_shaped(ts: Seq<TokenView>) -> bool {
    &&& forall|i: int| 0 <= i < ts.len() ==> token_shaped(#[trigger] ts[i])
    &&& forall|i: int| 0 <= i < ts.len() - 1 ==> !mergeable(#[trigger] ts[i], ts[i + 1])
}

proof fn lemma_classes_drop_last(s: Seq<char>)
    requires
        s.len() > 0,
    ensures
        classes_of(s).drop_last() == classes_of(s.drop_last()),
        classes_of(s).last() == class_of(s.last()),
        classes_of(s).len() == s.len(),
{
    assert(classes_of(s).drop_last() =~= classes_of(s.drop_last()));
}

proof fn lemma_joined_push(ts: Seq<TokenView>, t: TokenView)
    ensures
        joined(ts.push(t)) == joined(ts) + t.0,
{
    assert(ts.push(t).drop_last() =~= ts);
}

proof fn lemma_tokens_invariants(s: Seq<char>)
    ensures
        joined(tokenize_spec(s)) == s,
        tokens_shaped(tokenize_spec(s)),
    decreases s.len(),
{
    let ts = tokenize_spec(s);
    if s.len() == 0 {
        assert(ts.len() == 0);
    } else {
        let p = s.drop_last();
        let c = s.last();
        lemma_classes_drop_last(s);
        lemma_tokens_invariants(p);
        let pts = tokenize_spec(p);
        assert(s =~= p.push(c));
        let cl = class_of(c);
        let one = seq![c];
        if pts.len() > 0 {
            lemma_joined_push(pts.drop_last(), pts.last());
            assert(pts.drop_last().push(pts.last()) =~= pts);
        }
        if c == '*' && ends_with_kind(pts, TokenType::MarkdownItalic) {
            let x = (seq!['*', '*'], TokenType::MarkdownBold);
            lemma_joined_push(pts.drop_last(), x);
            assert(pts.last().0 == seq!['*']);
            assert(seq!['*'].push(c) =~= seq!['*', '*']);
            assert(ts =~= pts.drop_last().push(x));
            assert(joined(ts) =~= s);
        } else if (c == '*') || (c == '#' && line_blank(classes_of(p))) || c == '\n' || c == '\t'
            || !(is_space_class(cl) && ends_with_kind(pts, TokenType::Space)) && !(!is_space_class(cl)
            && is_word_class(cl) && ends_with_kind(pts, TokenType::Word)) {
            let k = ts.last().1;
            assert(ts =~= pts.push((one, k)));
            lemma_joined_push(pts, (one, k));
            assert(joined(ts) =~= s);
            assert(token_shaped(ts.last()));
        } else if is_space_class(cl) {
            let x = (pts.last().0.push(c), TokenType::Space);
            assert(ts =~= pts.drop_last().push(x));
            lemma_joined_push(pts.drop_last(), x);
            assert(joined(ts) =~= s);
            assert(token_shaped(pts.last()));
            assert forall|j: int| 0 <= j < x.0.len() implies space_char(#[trigger] x.0[j]) by {
                if j < pts.last().0.len() {
                    assert(x.0[j] == pts.last().0[j]);
                }
            }
            assert(token_shaped(x));
        } else {
            let x = (pts.last().0.push(c), TokenType::Word);
            assert(is_word_class(cl) && ends_with_kind(pts, TokenType::Word));
            assert(!is_space_class(classes_of(s).last()));
            assert(ts =~= pts.drop_last().push(x));
            lemma_joined_push(pts.drop_last(), x);
            assert(joined(ts) =~= s);
            assert(token_shaped(pts.last()));
            assert forall|j: int| 0 <= j < x.0.len() implies word_char(#[trigger] x.0[j]) by {
                if j < pts.last().0.len() {
                    assert(x.0[j] == pts.last().0[j]);
                }
            }
            assert(token_shaped(x));
        }
        assert forall|i: int| 0 <= i < ts.len() implies token_shaped(#[trigger] ts[i]) by {
            if i < ts.len() - 1 {
                assert(ts[i] == pts[i]);
            }
        }
        assert forall|i: int| 0 <= i < ts.len() - 1 implies !mergeable(#[trigger] ts[i], ts[i + 1]) by {
            if i < ts.len() - 2 {
                assert(ts[i] == pts[i]);
                assert(ts[i + 1] == pts[i + 1]);
            } else {
                assert(ts[i] == pts[i]);
            }
        }
    }
}


/// Joining the texts of the tokens of `s` in order gives `s` back.
pub proof fn lemma_tokens_cover(s: Seq<char>)
    ensures
        joined(tokenize_spec(s)) == s,
{
    lemma_tokens_invariants(s);
}

/// No token of `s` is empty.
pub proof fn lemma_tokens_non_empty(s: Seq<char>)
    ensures
        forall|i: int|
            0 <= i < tokenize_spec(s).len() ==> #[trigger] tokenize_spec(s)[i].0.len() > 0,
{
    lemma_tokens_invariants(s);
    let ts = tokenize_spec(s);
    assert forall|i: int| 0 <= i < ts.len() implies #[trigger] ts[i].0.len() > 0 by {
        assert(token_shaped(ts[i]));
    }
}

/// Runs are merged: no two neighbouring tokens of `s` are both words or both
/// spaces, and each tab or line feed is a token of its own.
pub proof fn lemma_runs_maximal(s: Seq<char>)
    ensures
        forall|i: int|
            0 <= i < tokenize_spec(s).len() - 1 ==> !mergeable(
                #[trigger] tokenize_spec(s)[i],
                tokenize_spec(s)[i + 1],
            ),
        forall|i: int|
            0 <= i < tokenize_spec(s).len() && (#[trigger] tokenize_spec(s)[i]).1
                == TokenType::Tab ==> tokenize_spec(s)[i].0 == seq!['\t'],
        forall|i: int|
            0 <= i < tokenize_spec(s).len() && (#[trigger] tokenize_spec(s)[i]).1
                == TokenType::Newline ==> tokenize_spec(s)[i].0 == seq!['\n'],
{
    lemma_tokens_invariants(s);
    let ts = tokenize_spec(s);
    assert forall|i: int| 0 <= i < ts.len() implies token_shaped(#[trigger] ts[i]) by {}
}

/// Every character of a Word token of `s` is alphanumeric or an underscore,
/// and every character of a Space token is whitespace other than line feed
/// and tab.
pub proof fn lemma_token_classes(s: Seq<char>)
    ensures
        forall|i: int, j: int|
            0 <= i < tokenize_spec(s).len() && tokenize_spec(s)[i].1 == TokenType::Word && 0 <= j
                < tokenize_spec(s)[i].0.len() ==> word_char(#[trigger] tokenize_spec(s)[i].0[j]),
        forall|i: int, j: int|
            0 <= i < tokenize_spec(s).len() && tokenize_spec(s)[i].1 == TokenType::Space && 0
                <= j < tokenize_spec(s)[i].0.len() ==> space_char(
                #[trigger] tokenize_spec(s)[i].0[j],
            ),
{
    lemma_tokens_invariants(s);
    let ts = tokenize_spec(s);
    assert forall|i: int, j: int|
        0 <= i < ts.len() && ts[i].1 == TokenType::Word && 0 <= j < ts[i].0.len() implies word_char(
        #[trigger] ts[i].0[j],
    ) by {
        assert(token_shaped(ts[i]));
    }
    assert forall|i: int, j: int|
        0 <= i < ts.len() && ts[i].1 == TokenType::Space && 0 <= j < ts[i].0.len() implies space_char(
        #[trigger] ts[i].0[j],
    ) by {
        assert(token_shaped(ts[i]));
    }
}

} // verus!
