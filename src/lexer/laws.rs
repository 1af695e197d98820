//! Properties of the scanner that relate several pulls or hold for whole
//! classes of inputs.
use vstd::prelude::*;
use super::{pull, LexerView};
use super::rules::{
    comment_opens, ident_continue, next_token, number_continue, run_len, string_body, punct_char, skip_blank, skip_block_comment, skip_line_comment,
    two_char_operator, white_space,
};
use super::token::{LexError, TokenView};

verus! {

/// A line comment ended by its newline: `//`, text without a newline, `\n`.
pub open spec fn closed_line_comment(p: Seq<char>) -> bool {
    &&& p.len() >= 3
    &&& p[0] == '/' && p[1] == '/'
    &&& p[p.len() - 1] == '\n'
    &&& forall|i: int| 2 <= i < p.len() - 1 ==> p[i] != '\n'
}

/// A block comment ended by `*/`, with no `*/` before its end.
pub open spec fn closed_block_comment(p: Seq<char>) -> bool {
    &&& p.len() >= 4
    &&& p[0] == '/' && p[1] == '*'
    &&& p[p.len() - 2] == '*' && p[p.len() - 1] == '/'
    &&& forall|i: int| 2 <= i < p.len() - 2 ==> !(#[trigger] p[i] == '*' && p[i + 1] == '/')
}

/// A line comment that runs to the end of the input: `//` and no newline after it.
pub open spec fn open_line_comment(p: Seq<char>) -> bool {
    &&& p.len() >= 2
    &&& p[0] == '/' && p[1] == '/'
    &&& forall|i: int| 2 <= i < p.len() ==> p[i] != '\n'
}

/// A block comment that runs to the end of the input: `/*` and no `*/` after it.
pub open spec fn open_block_comment(p: Seq<char>) -> bool {
    &&& p.len() >= 2
    &&& p[0] == '/' && p[1] == '*'
    &&& forall|i: int| 2 <= i < p.len() - 1 ==> !(#[trigger] p[i] == '*' && p[i + 1] == '/')
}

/// One piece of blank text: a whitespace character or a complete comment.
pub open spec fn blank_piece(p: Seq<char>) -> bool {
    ||| p.len() == 1 && white_space(p[0])
    ||| closed_line_comment(p)
    ||| closed_block_comment(p)
}

/// What blank text may end with: nothing, or a comment left open.
pub open spec fn blank_tail(p: Seq<char>) -> bool {
    ||| p.len() == 0
    ||| open_line_comment(p)
    ||| open_block_comment(p)
}

/// A scanner at the start of `input`.
pub open spec fn fresh(input: Seq<char>) -> LexerView {
    LexerView { input, pos: 0, done: false }
}

/// What `n` successive pulls from a scanner in state `st` hand out.
pub open spec fn pulls(st: LexerView, n: nat) -> Seq<Option<Result<TokenView, LexError>>>
    decreases n,
{
    if n == 0 {
        Seq::empty()
    } else {
        let (r, next) = pull(st);
        seq![r] + pulls(next, (n - 1) as nat)
    }
}

proof fn lemma_line_comment_body(s: Seq<char>, j: int, end: int)
    requires
        0 <= j < end <= s.len(),
        s[end - 1] == '\n',
        forall|i: int| j <= i < end - 1 ==> s[i] != '\n',
    ensures
        skip_line_comment(s, j) == skip_blank(s, end),
    decreases end - j,
{
    if j < end - 1 {
        lemma_line_comment_body(s, j + 1, end);
    }
}

proof fn lemma_open_line_comment_body(s: Seq<char>, j: int)
    requires
        0 <= j <= s.len(),
        forall|i: int| j <= i < s.len() ==> s[i] != '\n',
    ensures
        skip_line_comment(s, j) == s.len(),
    decreases s.len() - j,
{
    if j < s.len() {
        lemma_open_line_comment_body(s, j + 1);
    }
}

proof fn lemma_block_comment_body(s: Seq<char>, j: int, end: int)
    requires
        0 <= j <= end - 2,
        end <= s.len(),
        s[end - 2] == '*' && s[end - 1] == '/',
        forall|i: int| j <= i < end - 2 ==> !(#[trigger] s[i] == '*' && s[i + 1] == '/'),
    ensures
        skip_block_comment(s, j) == skip_blank(s, end),
    decreases end - j,
{
    if j < end - 2 {
        lemma_block_comment_body(s, j + 1, end);
    }
}

proof fn lemma_open_block_comment_body(s: Seq<char>, j: int)
    requires
        0 <= j <= s.len(),
        forall|i: int| j <= i < s.len() - 1 ==> !(#[trigger] s[i] == '*' && s[i + 1] == '/'),
    ensures
        skip_block_comment(s, j) == s.len(),
    decreases s.len() - j,
{
    if j < s.len() {
        lemma_open_block_comment_body(s, j + 1);
    }
}

/// Skipping from the start of a blank piece goes on where skipping from its end does.
proof fn lemma_skip_piece(s: Seq<char>, i: int, p: Seq<char>)
    requires
        0 <= i,
        i + p.len() <= s.len(),
        s.subrange(i, i + p.len()) == p,
        blank_piece(p),
    ensures
        skip_blank(s, i) == skip_blank(s, i + p.len()),
{
    let end = i + p.len();
    assert(s[i] == p[0]);
    if p.len() == 1 && white_space(p[0]) {
    } else if closed_line_comment(p) {
        assert(s[i + 1] == p[1]);
        assert(!white_space('/'));
        assert(s[end - 1] == p[p.len() - 1]);
        assert forall|k: int| i + 2 <= k < end - 1 implies s[k] != '\n' by {
            assert(s[k] == p[k - i]);
        }
        lemma_line_comment_body(s, i + 2, end);
    } else {
        assert(s[i + 1] == p[1]);
        assert(!white_space('/'));
        assert(s[end - 2] == p[p.len() - 2]);
        assert(s[end - 1] == p[p.len() - 1]);
        assert forall|k: int| i + 2 <= k < end - 2 implies !(#[trigger] s[k] == '*' && s[k + 1] == '/') by {
            assert(s[k] == p[k - i]);
            assert(s[k + 1] == p[k + 1 - i]);
        }
        lemma_block_comment_body(s, i + 2, end);
    }
}

/// Skipping from the start of a blank tail reaches the end of the input.
proof fn lemma_skip_tail(s: Seq<char>, i: int)
    requires
        0 <= i <= s.len(),
        blank_tail(s.subrange(i, s.len() as int)),
    ensures
        skip_blank(s, i) == s.len(),
{
    let p = s.subrange(i, s.len() as int);
    if p.len() == 0 {
    } else {
        assert(s[i] == p[0]);
        assert(s[i + 1] == p[1]);
        assert(!white_space('/'));
        if open_line_comment(p) {
            assert forall|k: int| i + 2 <= k < s.len() implies s[k] != '\n' by {
                assert(s[k] == p[k - i]);
            }
            lemma_open_line_comment_body(s, i + 2);
        } else {
            assert forall|k: int| i + 2 <= k < s.len() - 1 implies !(#[trigger] s[k] == '*' && s[k + 1] == '/') by {
                assert(s[k] == p[k - i]);
                assert(s[k + 1] == p[k + 1 - i]);
            }
            lemma_open_block_comment_body(s, i + 2);
        }
    }
}

proof fn lemma_skip_pieces(s: Seq<char>, i: int, pieces: Seq<Seq<char>>, tail: Seq<char>)
    requires
        0 <= i <= s.len(),
        s.subrange(i, s.len() as int) == pieces.flatten() + tail,
        forall|m: int| 0 <= m < pieces.len() ==> blank_piece(#[trigger] pieces[m]),
        blank_tail(tail),
    ensures
        skip_blank(s, i) == s.len(),
    decreases pieces.len(),
{
    if pieces.len() == 0 {
        assert(pieces.flatten() =~= Seq::<char>::empty());
        assert(s.subrange(i, s.len() as int) =~= tail);
        lemma_skip_tail(s, i);
    } else {
        let p = pieces[0];
        let rest = pieces.drop_first();
        assert(pieces.flatten() == p + rest.flatten());
        let whole = s.subrange(i, s.len() as int);
        assert(whole =~= p + (rest.flatten() + tail));
        assert(s.subrange(i, i + p.len()) =~= p) by {
            assert forall|k: int| 0 <= k < p.len() implies s.subrange(i, i + p.len())[k] == p[k] by {
                assert(whole[k] == p[k]);
            }
        }
        assert(blank_piece(pieces[0]));
        lemma_skip_piece(s, i, p);
        let j = i + p.len();
        assert(s.subrange(j, s.len() as int) =~= rest.flatten() + tail) by {
            assert forall|k: int| 0 <= k < s.len() - j implies s.subrange(j, s.len() as int)[k]
                == (rest.flatten() + tail)[k] by {
                assert(whole[p.len() + k] == (rest.flatten() + tail)[k]);
            }
        }
        assert forall|m: int| 0 <= m < rest.len() implies blank_piece(#[trigger] rest[m]) by {
            assert(rest[m] == pieces[m + 1]);
        }
        lemma_skip_pieces(s, j, rest, tail);
    }
}

/// Text made only of whitespace and comments (each comment closed, except
/// perhaps the last, which may run to the end) gives no token: the first pull
/// hands out `Eof`, and the sequence then ends.
pub proof fn lemma_blank_text_scans_to_eof(pieces: Seq<Seq<char>>, tail: Seq<char>)
    requires
        forall|m: int| 0 <= m < pieces.len() ==> blank_piece(#[trigger] pieces[m]),
        blank_tail(tail),
    ensures
        pulls(fresh(pieces.flatten() + tail), 2) == seq![
            Some(Ok::<TokenView, LexError>(TokenView::Eof)),
            None::<Result<TokenView, LexError>>,
        ],
{
    let s = pieces.flatten() + tail;
    assert(s.subrange(0, s.len() as int) =~= s);
    lemma_skip_pieces(s, 0, pieces, tail);
    assert(next_token(s, 0) == Ok::<(TokenView, int), LexError>((TokenView::Eof, s.len() as int)));
    let (r, next) = pull(fresh(s));
    assert(next.done);
    assert(pulls(next, 1) == seq![pull(next).0] + pulls(pull(next).1, 0));
    assert(pulls(next, 1) =~= seq![None::<Result<TokenView, LexError>>]);
    assert(pulls(fresh(s), 2) =~= seq![r] + pulls(next, 1));
}

proof fn lemma_skip_blank_bounds(s: Seq<char>, i: int)
    requires
        0 <= i <= s.len(),
    ensures
        i <= skip_blank(s, i) <= s.len(),
    decreases s.len() - i,
{
    if 0 <= i < s.len() && white_space(s[i]) {
        lemma_skip_blank_bounds(s, i + 1);
    } else if comment_opens(s, i, '/') {
        lemma_skip_line_comment_bounds(s, i + 2);
    } else if comment_opens(s, i, '*') {
        lemma_skip_block_comment_bounds(s, i + 2);
    }
}

proof fn lemma_skip_line_comment_bounds(s: Seq<char>, i: int)
    requires
        0 <= i <= s.len(),
    ensures
        i <= skip_line_comment(s, i) <= s.len(),
    decreases s.len() - i,
{
    if i < s.len() {
        if s[i] == '\n' {
            lemma_skip_blank_bounds(s, i + 1);
        } else {
            lemma_skip_line_comment_bounds(s, i + 1);
        }
    }
}

proof fn lemma_skip_block_comment_bounds(s: Seq<char>, i: int)
    requires
        0 <= i <= s.len(),
    ensures
        i <= skip_block_comment(s, i) <= s.len(),
    decreases s.len() - i,
{
    if i < s.len() {
        if s[i] == '*' && i + 1 < s.len() && s[i + 1] == '/' {
            lemma_skip_blank_bounds(s, i + 2);
        } else {
            lemma_skip_block_comment_bounds(s, i + 1);
        }
    }
}

/// Maximal munch: where the next token starts with a character that is not
/// punctuation, and it and the character after it form a two-character
/// operator, the scanner takes both as one operator token.
pub proof fn lemma_maximal_munch(s: Seq<char>, i: int)
    requires
        0 <= i <= s.len(),
        skip_blank(s, i) + 1 < s.len(),
        two_char_operator(s[skip_blank(s, i)], s[skip_blank(s, i) + 1]),
        !punct_char(s[skip_blank(s, i)]),
    ensures
        ({
            let k = skip_blank(s, i);
            next_token(s, i) == Ok::<(TokenView, int), LexError>(
                (TokenView::Operator(seq![s[k], s[k + 1]]), k + 2),
            )
        }),
{
    lemma_skip_blank_bounds(s, i);
}

/// Scanning depends on the input text alone: two fresh scanners over one text
/// hand out the same results, pull for pull.
pub proof fn lemma_rescan_identical(text: Seq<char>, a: LexerView, b: LexerView, n: nat)
    requires
        a == fresh(text),
        b == fresh(text),
    ensures
        pulls(a, n) == pulls(b, n),
{
}

proof fn lemma_run_len_bound(s: Seq<char>, i: int, p: spec_fn(char) -> bool)
    requires
        0 <= i <= s.len(),
    ensures
        i + run_len(s, i, p) <= s.len(),
    decreases s.len() - i,
{
    if i < s.len() && p(s[i]) {
        lemma_run_len_bound(s, i + 1, p);
    }
}

proof fn lemma_string_body_bound(s: Seq<char>, i: int)
    requires
        0 <= i,
    ensures
        string_body(s, i) matches Ok((_, j)) ==> i < j <= s.len(),
    decreases s.len() - i,
{
    if 0 <= i < s.len() && s[i] != '"' {
        if s[i] == '\\' {
            if i + 1 < s.len() {
                lemma_string_body_bound(s, i + 2);
            }
        } else {
            lemma_string_body_bound(s, i + 1);
        }
    }
}

/// The shape of every token: an identifier, a number or an operator holds at
/// least one character; an operator holds at most two and never starts with a
/// punctuation character; and every token but `Eof` moves the scanner forward
/// within the input.
pub proof fn lemma_token_shape(s: Seq<char>, i: int)
    requires
        0 <= i <= s.len(),
    ensures
        match next_token(s, i) {
            Ok((TokenView::Eof, j)) => j == s.len(),
            Ok((tok, j)) => {
                &&& i < j <= s.len()
                &&& tok matches TokenView::Identifier(t) ==> t.len() > 0
                &&& tok matches TokenView::Number(t) ==> t.len() > 0
                &&& tok matches TokenView::Operator(t) ==> 1 <= t.len() <= 2 && !punct_char(t[0])
            },
            Err(_) => true,
        },
{
    lemma_skip_blank_bounds(s, i);
    let k = skip_blank(s, i);
    if k < s.len() {
        lemma_run_len_bound(s, k + 1, |x: char| ident_continue(x));
        lemma_run_len_bound(s, k + 1, |x: char| number_continue(x));
        lemma_string_body_bound(s, k + 1);
    }
}

} // verus!
