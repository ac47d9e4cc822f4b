//! A flat tokenizer: markup as a sequence of text runs and tag texts.
use crate::text::{chars_of, lower_of, lowercase, string_from, trim, trimmed};
use vstd::prelude::*;

verus! {

#[derive(Debug, Clone, PartialEq, Eq)]
pub enum Token {
    Text(String),
    Tag(String),
}

pub enum TokenV {
    Text(Seq<char>),
    Tag(Seq<char>),
}

impl View for Token {
    type V = TokenV;

    open spec fn view(&self) -> TokenV {
        match *self {
            Token::Text(t) => TokenV::Text(t@),
            Token::Tag(t) => TokenV::Tag(t@),
        }
    }
}

/// The text run `cur` as a token, unless it is empty.
pub open spec fn text_token(cur: Seq<char>) -> Seq<TokenV> {
    if cur.len() > 0 {
        seq![TokenV::Text(cur)]
    } else {
        seq![]
    }
}

/// The tokens of `s`, where `cur` has been read since the last `<` or `>`
/// and `in_tag` tells whether a `<` is open. A `<` ends the text read so
/// far; a `>` that closes a `<` gives the text between them, trimmed and in
/// lower case, as a tag unless that is empty; any other `>` is text.
pub open spec fn tokens_from(s: Seq<char>, cur: Seq<char>, in_tag: bool) -> Seq<TokenV>
    decreases s.len(),
{
    if s.len() == 0 {
        if in_tag {
            seq![]
        } else {
            text_token(cur)
        }
    } else if s[0] == '<' {
        text_token(cur) + tokens_from(s.drop_first(), Seq::<char>::empty(), true)
    } else if s[0] == '>' && in_tag {
        let name = lower_of(trim(cur));
        (if name.len() > 0 {
            seq![TokenV::Tag(name)]
        } else {
            seq![]
        }) + tokens_from(s.drop_first(), Seq::<char>::empty(), false)
    } else {
        tokens_from(s.drop_first(), cur.push(s[0]), in_tag)
    }
}

pub open spec fn token_views(v: Seq<Token>) -> Seq<TokenV> {
    v.map_values(|t: Token| t@)
}

proof fn lemma_push_views(v: Seq<Token>, t: Token)
    ensures
        token_views(v.push(t)) == token_views(v).push(t@),
{
    assert(token_views(v.push(t)) =~= token_views(v).push(t@));
}

/// The token for a tag text already trimmed and in lower case: none where it
/// is empty.
pub fn tag_token(lowered: String) -> (r: Option<Token>)
    ensures
        match r {
            Some(t) => lowered@.len() > 0 && t@ == TokenV::Tag(lowered@),
            None => lowered@.len() == 0,
        },
{
    if lowered.as_str().is_empty() {
        None
    } else {
        Some(Token::Tag(lowered))
    }
}

/// Splits markup into text runs and lower-case tag texts.
pub fn tokenize_html(body: &String) -> (r: Vec<Token>)
    ensures
        token_views(r@) == tokens_from(body@, Seq::<char>::empty(), false),
{
    let s = chars_of(body.as_str());
    let mut tokens: Vec<Token> = Vec::new();
    let mut current: Vec<char> = Vec::new();
    let mut in_tag = false;
    let mut i: usize = 0;
    assert(s@.skip(0) =~= s@);
    assert(token_views(tokens@) + tokens_from(s@, current@, in_tag) =~= tokens_from(
        s@,
        current@,
        in_tag,
    ));
    while i < s.len()
        invariant
            i <= s@.len(),
            s@ == body@,
            token_views(tokens@) + tokens_from(s@.skip(i as int), current@, in_tag) == tokens_from(
                body@,
                Seq::<char>::empty(),
                false,
            ),
        decreases s@.len() - i,
    {
        let c = s[i];
        let ghost rest = s@.skip(i as int);
        let ghost before = token_views(tokens@);
        assert(rest.drop_first() =~= s@.skip(i + 1));
        assert(rest[0] == c);
        if c == '<' {
            if current.len() > 0 {
                let t = Token::Text(string_from(&current));
                proof {
                    lemma_push_views(tokens@, t);
                }
                tokens.push(t);
                assert(token_views(tokens@) + tokens_from(s@.skip(i + 1), Seq::<char>::empty(), true)
                    =~= before + (text_token(current@) + tokens_from(
                    s@.skip(i + 1),
                    Seq::<char>::empty(),
                    true,
                )));
            } else {
                assert(token_views(tokens@) + tokens_from(s@.skip(i + 1), Seq::<char>::empty(), true)
                    =~= before + (text_token(current@) + tokens_from(
                    s@.skip(i + 1),
                    Seq::<char>::empty(),
                    true,
                )));
            }
            current = Vec::new();
            in_tag = true;
        } else if c == '>' && in_tag {
            let t = trimmed(&current);
            let name = lowercase(string_from(&t).as_str());
            let ghost nm = name@;
            let ghost tok = if nm.len() > 0 {
                seq![TokenV::Tag(nm)]
            } else {
                Seq::<TokenV>::empty()
            };
            match tag_token(name) {
                Some(tk) => {
                    proof {
                        lemma_push_views(tokens@, tk);
                    }
                    tokens.push(tk);
                },
                None => {},
            }
            assert(token_views(tokens@) + tokens_from(s@.skip(i + 1), Seq::<char>::empty(), false)
                =~= before + (tok + tokens_from(s@.skip(i + 1), Seq::<char>::empty(), false)));
            current = Vec::new();
            in_tag = false;
        } else {
            current.push(c);
        }
        i += 1;
    }
    if !in_tag && current.len() > 0 {
        let t = Token::Text(string_from(&current));
        proof {
            lemma_push_views(tokens@, t);
        }
        let ghost before = token_views(tokens@);
        tokens.push(t);
        assert(token_views(tokens@) =~= before + text_token(current@));
    } else {
        assert(token_views(tokens@) + tokens_from(s@.skip(i as int), current@, in_tag)
            =~= token_views(tokens@));
    }
    tokens
}

} // verus!
