//! The tokenizer: splitting an encoded line into text segments and the four
//! structural delimiter tokens, and rendering token sequences back to text
//! for error reporting.

use vstd::prelude::*;

use crate::text::{
    all_spaces, has_idx, is_delim, least_idx, least_idx_at, lemma_least_idx_exists,
    lemma_least_idx_unique, trimmed, trimmed_substring,
};

verus! {

/// One lexical token of the encoding.
#[derive(Debug)]
pub enum Token {
    /// A trimmed, non-empty plain-text segment.
    Text(String),
    /// `<`: opens a generic-parameter block.
    GenericStart,
    /// `;`: separates entries of a generic-parameter block.
    GenericNext,
    /// `>`: closes a generic-parameter block.
    GenericEnd,
    /// `,`: separates a descriptor's field segments.
    Comma,
}

/// Spec-level model of a token.
#[verifier::ext_equal]
pub enum TokenView {
    Text(Seq<char>),
    Open,
    Next,
    Close,
    Comma,
}

impl View for Token {
    type V = TokenView;

    open spec fn view(&self) -> TokenView {
        match self {
            Token::Text(s) => TokenView::Text(s@),
            Token::GenericStart => TokenView::Open,
            Token::GenericNext => TokenView::Next,
            Token::GenericEnd => TokenView::Close,
            Token::Comma => TokenView::Comma,
        }
    }
}

/// The models of a sequence of tokens.
pub open spec fn views_of(ts: Seq<Token>) -> Seq<TokenView> {
    ts.map_values(|t: Token| t@)
}

/// The token for one delimiter character.
pub open spec fn delim_token(c: char) -> TokenView {
    if c == ',' {
        TokenView::Comma
    } else if c == '<' {
        TokenView::Open
    } else if c == '>' {
        TokenView::Close
    } else {
        TokenView::Next
    }
}

/// The tokens contributed by one trimmed text segment: none when it is
/// empty, else a single text token.
pub open spec fn text_tokens(t: Seq<char>) -> Seq<TokenView> {
    if t.len() == 0 {
        Seq::empty()
    } else {
        seq![TokenView::Text(t)]
    }
}

/// The token sequence of an encoded line: each delimiter character becomes
/// its token, and each maximal delimiter-free segment, once trimmed, becomes
/// a text token unless it is empty.
pub open spec fn spec_tokenize(s: Seq<char>) -> Seq<TokenView>
    decreases s.len(),
{
    if has_idx(s.len() as int, |i: int| is_delim(s[i])) {
        let d = least_idx(s.len() as int, |i: int| is_delim(s[i]));
        text_tokens(trimmed(s.subrange(0, d))) + seq![delim_token(s[d])] + spec_tokenize(
            s.subrange(d + 1, s.len() as int),
        )
    } else {
        text_tokens(trimmed(s))
    }
}

/// The text a token renders back to when an error reports the unconsumed
/// remainder.
pub open spec fn token_text(t: TokenView) -> Seq<char> {
    match t {
        TokenView::Text(s) => s,
        TokenView::Open => seq!['<'],
        TokenView::Close => seq!['>'],
        TokenView::Comma => seq![',', ' '],
        TokenView::Next => seq![';', ' '],
    }
}

/// The text a token sequence renders back to.
pub open spec fn tokens_text(ts: Seq<TokenView>) -> Seq<char>
    decreases ts.len(),
{
    if ts.len() == 0 {
        Seq::<char>::empty()
    } else {
        token_text(ts[0]) + tokens_text(ts.drop_first())
    }
}

proof fn lemma_views_push(ts: Seq<Token>, t: Token)
    ensures
        views_of(ts.push(t)) =~= views_of(ts).push(t@),
{
}

proof fn lemma_tokens_text_push(ts: Seq<TokenView>, t: TokenView)
    ensures
        tokens_text(ts.push(t)) == tokens_text(ts) + token_text(t),
    decreases ts.len(),
{
    if ts.len() == 0 {
        assert(ts.push(t).drop_first() =~= Seq::<TokenView>::empty());
        assert(ts.push(t)[0] == t);
        assert(tokens_text(ts.push(t)) == token_text(t) + tokens_text(Seq::<TokenView>::empty()));
        assert(tokens_text(ts.push(t)) =~= token_text(t));
        assert(tokens_text(ts) + token_text(t) =~= token_text(t));
    } else {
        assert(ts.push(t).drop_first() =~= ts.drop_first().push(t));
        lemma_tokens_text_push(ts.drop_first(), t);
        assert(tokens_text(ts.push(t)) =~= tokens_text(ts) + token_text(t));
    }
}

/// Split an encoded line into tokens, appending them to `v`.
///
/// Delimiters are recognized anywhere; the text between two delimiters is
/// trimmed and dropped when empty, so delimiters are never part of a text
/// token.  Each delimiter occurrence becomes exactly one token, so the
/// result is the same whatever order the delimiter kinds are tried in.
pub fn split_string(s: &str, v: &mut Vec<Token>)
    ensures
        views_of(final(v)@) == views_of(old(v)@) + spec_tokenize(s@),
{
    let n = s.unicode_len();
    let mut i: usize = 0;
    let mut start: usize = 0;
    let ghost mut done: Seq<TokenView> = Seq::empty();
    proof {
        assert(views_of(v@) =~= views_of(old(v)@) + done);
        assert(spec_tokenize(s@) =~= done + spec_tokenize(
            s@.subrange(start as int, n as int),
        )) by {
            assert(s@.subrange(0, n as int) =~= s@);
        }
    }
    while i < n
        invariant
            start <= i <= n,
            n == s@.len(),
            views_of(v@) == views_of(old(v)@) + done,
            spec_tokenize(s@) == done + spec_tokenize(s@.subrange(start as int, n as int)),
            forall|j: int| start <= j < i ==> !is_delim(#[trigger] s@[j]),
        decreases n - i,
    {
        let c = s.get_char(i);
        if c == ',' || c == '<' || c == '>' || c == ';' {
            let ghost suffix = s@.subrange(start as int, n as int);
            let ghost seg = s@.subrange(start as int, i as int);
            proof {
                let q = |k: int| is_delim(suffix[k]);
                assert(suffix[i - start] == s@[i as int]);
                assert forall|j: int| 0 <= j < i - start implies !#[trigger] q(j) by {
                    assert(suffix[j] == s@[start + j]);
                }
                assert(least_idx_at(suffix.len() as int, q, i - start));
                lemma_least_idx_unique(suffix.len() as int, q, i - start);
                assert(suffix.subrange(0, i - start) =~= seg);
                assert(suffix.subrange(i - start + 1, suffix.len() as int) =~= s@.subrange(
                    i + 1,
                    n as int,
                ));
                assert(spec_tokenize(suffix) == text_tokens(trimmed(seg)) + seq![
                    delim_token(s@[i as int]),
                ] + spec_tokenize(s@.subrange(i + 1, n as int)));
            }
            let txt = trimmed_substring(s, start, i);
            if !txt.as_str().is_empty() {
                let ghost pre_v = v@;
                v.push(Token::Text(txt));
                proof {
                    lemma_views_push(pre_v, Token::Text(txt));
                }
            }
            let tok = if c == ',' {
                Token::Comma
            } else if c == '<' {
                Token::GenericStart
            } else if c == '>' {
                Token::GenericEnd
            } else {
                Token::GenericNext
            };
            proof {
                assert(tok@ == delim_token(s@[i as int]));
            }
            let ghost pre_v2 = v@;
            v.push(tok);
            proof {
                lemma_views_push(pre_v2, tok);
                done = done + text_tokens(trimmed(seg)) + seq![delim_token(s@[i as int])];
                assert(views_of(v@) =~= views_of(old(v)@) + done);
                assert(spec_tokenize(s@) =~= done + spec_tokenize(s@.subrange(i + 1, n as int)));
            }
            start = i + 1;
        }
        i = i + 1;
    }
    let ghost suffix = s@.subrange(start as int, n as int);
    proof {
        let q = |k: int| is_delim(suffix[k]);
        assert forall|j: int| 0 <= j < suffix.len() implies !#[trigger] q(j) by {
            assert(suffix[j] == s@[start + j]);
        }
        if has_idx(suffix.len() as int, q) {
            let l = least_idx(suffix.len() as int, q);
            assert(least_idx_at(suffix.len() as int, q, l));
        }
        assert(spec_tokenize(suffix) == text_tokens(trimmed(suffix)));
    }
    let txt = trimmed_substring(s, start, n);
    if !txt.as_str().is_empty() {
        let ghost pre_v = v@;
        v.push(Token::Text(txt));
        proof {
            lemma_views_push(pre_v, Token::Text(txt));
            assert(views_of(v@) =~= views_of(old(v)@) + done + text_tokens(trimmed(suffix)));
        }
    }
    proof {
        assert(views_of(v@) =~= views_of(old(v)@) + spec_tokenize(s@));
    }
}

/// Render the tokens from position `from` on back to text, as error reports
/// show the unconsumed remainder.
pub fn tokens_to_string(tokens: &Vec<Token>, from: usize) -> (r: String)
    requires
        from <= tokens@.len(),
    ensures
        r@ == tokens_text(views_of(tokens@).skip(from as int)),
{
    let ghost all = views_of(tokens@);
    let mut r = String::new();
    let mut i: usize = from;
    proof {
        assert(all.subrange(from as int, from as int) =~= Seq::<TokenView>::empty());
        assert(r@ =~= tokens_text(all.subrange(from as int, from as int)));
    }
    while i < tokens.len()
        invariant
            from <= i <= tokens@.len(),
            all == views_of(tokens@),
            r@ == tokens_text(all.subrange(from as int, i as int)),
        decreases tokens@.len() - i,
    {
        let ghost prefix = all.subrange(from as int, i as int);
        match &tokens[i] {
            Token::Text(s) => {
                r.append(s.as_str());
            },
            Token::GenericStart => {
                r.append("<");
                proof {
                    reveal_strlit("<");
                    assert("<"@ =~= seq!['<']);
                }
            },
            Token::GenericEnd => {
                r.append(">");
                proof {
                    reveal_strlit(">");
                    assert(">"@ =~= seq!['>']);
                }
            },
            Token::Comma => {
                r.append(", ");
                proof {
                    reveal_strlit(", ");
                    assert(", "@ =~= seq![',', ' ']);
                }
            },
            Token::GenericNext => {
                r.append("; ");
                proof {
                    reveal_strlit("; ");
                    assert("; "@ =~= seq![';', ' ']);
                }
            },
        }
        proof {
            assert(all[i as int] == tokens@[i as int]@);
            assert(all.subrange(from as int, i + 1) =~= prefix.push(all[i as int]));
            lemma_tokens_text_push(prefix, all[i as int]);
            assert(r@ =~= tokens_text(all.subrange(from as int, i + 1)));
        }
        i = i + 1;
    }
    proof {
        assert(all.subrange(from as int, tokens@.len() as int) =~= all.skip(from as int));
    }
    r
}

/// Tokenizing `u + w` splits at the boundary whenever `w` begins with a
/// delimiter: the text before the boundary cannot merge into `w`.
pub proof fn lemma_tokenize_concat(u: Seq<char>, w: Seq<char>)
    requires
        w.len() > 0,
        is_delim(w[0]),
    ensures
        spec_tokenize(u + w) == spec_tokenize(u) + spec_tokenize(w),
    decreases u.len(),
{
    let s = u + w;
    let q = |k: int| is_delim(s[k]);
    let qu = |k: int| is_delim(u[k]);
    let qw = |k: int| is_delim(w[k]);
    if has_idx(u.len() as int, qu) {
        let d = least_idx(u.len() as int, qu);
        assert(least_idx_at(u.len() as int, qu, d));
        assert(s[d] == u[d]);
        assert forall|j: int| 0 <= j < d implies !#[trigger] q(j) by {
            assert(s[j] == u[j]);
            assert(!qu(j));
        }
        assert(least_idx_at(s.len() as int, q, d));
        lemma_least_idx_unique(s.len() as int, q, d);
        assert(s.subrange(0, d) =~= u.subrange(0, d));
        assert(s.subrange(d + 1, s.len() as int) =~= u.subrange(d + 1, u.len() as int) + w);
        lemma_tokenize_concat(u.subrange(d + 1, u.len() as int), w);
        assert(spec_tokenize(s) =~= spec_tokenize(u) + spec_tokenize(w));
    } else {
        assert forall|j: int| 0 <= j < u.len() implies !is_delim(#[trigger] u[j]) by {
            if is_delim(u[j]) {
                lemma_least_idx_exists(u.len() as int, qu, j);
            }
        }
        assert(s[u.len() as int] == w[0]);
        assert forall|j: int| 0 <= j < u.len() implies !#[trigger] q(j) by {
            assert(s[j] == u[j]);
        }
        assert(least_idx_at(s.len() as int, q, u.len() as int));
        lemma_least_idx_unique(s.len() as int, q, u.len() as int);
        assert(s.subrange(0, u.len() as int) =~= u);
        assert(s.subrange(u.len() as int + 1, s.len() as int) =~= w.subrange(
            1,
            w.len() as int,
        ));
        // w itself begins with its first delimiter
        assert(least_idx_at(w.len() as int, qw, 0));
        lemma_least_idx_unique(w.len() as int, qw, 0);
        assert(w.subrange(0, 0) =~= Seq::<char>::empty());
        assert(trimmed(Seq::<char>::empty()) =~= Seq::<char>::empty()) by {
            assert(all_spaces(Seq::<char>::empty()));
        }
        assert(spec_tokenize(w) =~= seq![delim_token(w[0])] + spec_tokenize(
            w.subrange(1, w.len() as int),
        ));
        assert(spec_tokenize(s) =~= spec_tokenize(u) + spec_tokenize(w));
    }
}


/// A delimiter-free string tokenizes to at most one text token.
pub proof fn lemma_tokenize_no_delim(s: Seq<char>)
    requires
        crate::text::no_delims(s),
    ensures
        spec_tokenize(s) == text_tokens(trimmed(s)),
{
    let q = |k: int| is_delim(s[k]);
    if has_idx(s.len() as int, q) {
        let l = least_idx(s.len() as int, q);
        assert(least_idx_at(s.len() as int, q, l));
    }
}

/// A non-empty, trim-stable, delimiter-free string is one text token.
pub proof fn lemma_tokenize_text(s: Seq<char>)
    requires
        crate::text::no_delims(s),
        trimmed(s) == s,
        s.len() > 0,
    ensures
        spec_tokenize(s) == seq![TokenView::Text(s)],
{
    lemma_tokenize_no_delim(s);
}

/// A string starting with a delimiter yields that delimiter's token first.
pub proof fn lemma_tokenize_delim_head(s: Seq<char>)
    requires
        s.len() > 0,
        is_delim(s[0]),
    ensures
        spec_tokenize(s) == seq![delim_token(s[0])] + spec_tokenize(s.subrange(1, s.len() as int)),
{
    let q = |k: int| is_delim(s[k]);
    assert(least_idx_at(s.len() as int, q, 0));
    lemma_least_idx_unique(s.len() as int, q, 0);
    assert(s.subrange(0, 0) =~= Seq::<char>::empty());
    assert(all_spaces(Seq::<char>::empty()));
    assert(trimmed(Seq::<char>::empty()).len() == 0);
    assert(spec_tokenize(s) =~= seq![delim_token(s[0])] + spec_tokenize(
        s.subrange(1, s.len() as int),
    ));
}

/// A leading space never affects the token sequence.
pub proof fn lemma_tokenize_space_head(s: Seq<char>)
    ensures
        spec_tokenize(seq![' '] + s) == spec_tokenize(s),
{
    let t = seq![' '] + s;
    let qt = |k: int| is_delim(t[k]);
    let qs = |k: int| is_delim(s[k]);
    assert forall|j: int| 0 <= j < s.len() implies t[j + 1] == s[j] by {}
    if has_idx(s.len() as int, qs) {
        let d = least_idx(s.len() as int, qs);
        assert(least_idx_at(s.len() as int, qs, d));
        assert(t[d + 1] == s[d]);
        assert forall|j: int| 0 <= j < d + 1 implies !#[trigger] qt(j) by {
            if j > 0 {
                assert(t[j] == s[j - 1]);
                assert(!qs(j - 1));
            }
        }
        assert(least_idx_at(t.len() as int, qt, d + 1));
        lemma_least_idx_unique(t.len() as int, qt, d + 1);
        assert(t.subrange(0, d + 1) =~= seq![' '] + s.subrange(0, d));
        crate::text::lemma_trim_space_head(s.subrange(0, d));
        assert(t.subrange(d + 2, t.len() as int) =~= s.subrange(d + 1, s.len() as int));
        assert(spec_tokenize(t) =~= spec_tokenize(s));
    } else {
        assert forall|j: int| 0 <= j < s.len() implies !is_delim(#[trigger] s[j]) by {
            if is_delim(s[j]) {
                lemma_least_idx_exists(s.len() as int, qs, j);
            }
        }
        assert forall|j: int| 0 <= j < t.len() implies !#[trigger] qt(j) by {
            if j > 0 {
                assert(t[j] == s[j - 1]);
            }
        }
        if has_idx(t.len() as int, qt) {
            let l = least_idx(t.len() as int, qt);
            assert(least_idx_at(t.len() as int, qt, l));
        }
        crate::text::lemma_trim_space_head(s);
        assert(spec_tokenize(t) =~= spec_tokenize(s));
    }
}

} // verus!
