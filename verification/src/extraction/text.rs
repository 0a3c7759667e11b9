use vstd::prelude::*;
use crate::chars::{char_is_whitespace, chars_of, is_whitespace, join_spaced, string_of};
use crate::error::{Result, VoxPDFError, check_page};

verus! {

/// What a pass over part of a content stream has gathered: the tokens
/// closed so far and the characters of the token still open.
pub struct TokenScan {
    pub tokens: Seq<Seq<char>>,
    pub pending: Seq<char>,
}

/// The tokens of `scan` with its open token, if it has any character, closed.
pub open spec fn closed_tokens(scan: TokenScan) -> Seq<Seq<char>> {
    if scan.pending.len() > 0 {
        scan.tokens.push(scan.pending)
    } else {
        scan.tokens
    }
}

/// The state after the character `c`, whitespace or not as `is_space`
/// says: whitespace closes the open token, any other character joins it.
pub open spec fn token_step(scan: TokenScan, c: char, is_space: bool) -> TokenScan {
    if is_space {
        TokenScan { tokens: closed_tokens(scan), pending: Seq::empty() }
    } else {
        TokenScan { tokens: scan.tokens, pending: scan.pending.push(c) }
    }
}

/// The state after all of `content`.
pub open spec fn scan_tokens(content: Seq<char>) -> TokenScan
    decreases content.len(),
{
    if content.len() == 0 {
        TokenScan { tokens: Seq::empty(), pending: Seq::empty() }
    } else {
        token_step(
            scan_tokens(content.drop_last()),
            content.last(),
            char_is_whitespace(content.last()),
        )
    }
}

/// The tokens of a content stream: its maximal runs of characters that are
/// not whitespace, in order.
pub open spec fn tokens_of(content: Seq<char>) -> Seq<Seq<char>> {
    closed_tokens(scan_tokens(content))
}

/// The text between the parentheses of a string literal, for a token that
/// starts with `(` and ends with `)`.
pub open spec fn pdf_string(token: Seq<char>) -> Option<Seq<char>> {
    if token.len() >= 2 && token[0] == '(' && token.last() == ')' {
        Some(token.subrange(1, token.len() - 1))
    } else {
        None
    }
}

/// Whether the token is one of the operators that show text, `Tj` or `TJ`.
pub open spec fn is_show_operator(token: Seq<char>) -> bool {
    token.len() == 2 && token[0] == 'T' && (token[1] == 'j' || token[1] == 'J')
}

/// The strings shown by the first `n` tokens: for each show operator after
/// the first token, the string literal right before it, if it is one.
pub open spec fn shown_strings(tokens: Seq<Seq<char>>, n: int) -> Seq<Seq<char>>
    decreases n,
{
    if n <= 0 {
        Seq::empty()
    } else {
        let before = shown_strings(tokens, n - 1);
        if n >= 2 && is_show_operator(tokens[n - 1]) && pdf_string(tokens[n - 2]) is Some {
            before.push(pdf_string(tokens[n - 2])->0)
        } else {
            before
        }
    }
}

/// The text that the operators of a content stream show: the shown strings
/// with single spaces between them.
pub open spec fn operators_text(content: Seq<char>) -> Seq<char> {
    let tokens = tokens_of(content);
    join_spaced(shown_strings(tokens, tokens.len() as int))
}

/// The character sequences of the tokens.
pub open spec fn tokens_view(tokens: Seq<Vec<char>>) -> Seq<Seq<char>> {
    tokens.map_values(|token: Vec<char>| token@)
}

/// The pass over a content stream that cuts it into tokens.
pub struct Tokenizer {
    tokens: Vec<Vec<char>>,
    pending: Vec<char>,
}

impl Tokenizer {
    /// What the pass has gathered.
    pub closed spec fn scan(&self) -> TokenScan {
        TokenScan { tokens: tokens_view(self.tokens@), pending: self.pending@ }
    }

    /// The pass before the first character.
    pub fn new() -> (pass: Tokenizer)
        ensures
            pass.scan() == (TokenScan { tokens: Seq::empty(), pending: Seq::empty() }),
    {
        let pass = Tokenizer { tokens: Vec::new(), pending: Vec::new() };
        proof {
            assert(tokens_view(pass.tokens@) == Seq::<Seq<char>>::empty());
        }
        pass
    }

    /// Closes the open token, if it has any character.
    fn close_token(&mut self)
        ensures
            tokens_view(final(self).tokens@) == closed_tokens(old(self).scan()),
            final(self).pending@.len() == 0,
    {
        if self.pending.len() > 0 {
            let mut token: Vec<char> = Vec::new();
            std::mem::swap(&mut token, &mut self.pending);
            proof {
                assert(tokens_view(self.tokens@.push(token)) == tokens_view(self.tokens@).push(
                    token@,
                ));
            }
            self.tokens.push(token);
        }
    }

    /// Takes the next character. `is_space` says whether it is whitespace.
    pub fn add_char(&mut self, c: char, is_space: bool)
        ensures
            final(self).scan() == token_step(old(self).scan(), c, is_space),
    {
        let ghost before = self.scan();
        if is_space {
            self.close_token();
        } else {
            self.pending.push(c);
        }
        proof {
            let after = token_step(before, c, is_space);
            assert(self.scan().tokens == after.tokens);
            assert(self.scan().pending == after.pending);
        }
    }

    /// Ends the stream: the token that is open is closed, and the tokens
    /// are handed over.
    pub fn finish(self) -> (tokens: Vec<Vec<char>>)
        ensures
            tokens_view(tokens@) == closed_tokens(self.scan()),
    {
        let mut pass = self;
        pass.close_token();
        pass.tokens
    }
}

/// Splits a content stream at whitespace.
pub fn tokenize(content: &Vec<char>) -> (tokens: Vec<Vec<char>>)
    ensures
        tokens_view(tokens@) == tokens_of(content@),
{
    let mut pass = Tokenizer::new();
    let mut i: usize = 0;
    proof {
        assert(content@.take(0) == Seq::<char>::empty());
    }
    while i < content.len()
        invariant
            i <= content.len(),
            pass.scan() == scan_tokens(content@.take(i as int)),
        decreases content.len() - i,
    {
        let c = content[i];
        proof {
            let prefix = content@.take(i as int + 1);
            assert(prefix.drop_last() == content@.take(i as int));
            assert(prefix.last() == c);
        }
        pass.add_char(c, is_whitespace(c));
        i = i + 1;
    }
    proof {
        assert(content@.take(i as int) == content@);
    }
    pass.finish()
}

/// The text of a string literal token, if the token is one.
fn literal_text(token: &Vec<char>) -> (text: Option<String>)
    ensures
        match text {
            Some(t) => pdf_string(token@) == Some(t@),
            None => pdf_string(token@) is None,
        },
{
    let n = token.len();
    if n >= 2 && token[0] == '(' && token[n - 1] == ')' {
        Some(string_of(token, 1, n - 1))
    } else {
        None
    }
}

/// Extracts the text of a string literal: `(text)` gives `text`, anything
/// else gives nothing.
pub fn extract_pdf_string(s: &str) -> (text: Option<String>)
    ensures
        match text {
            Some(t) => pdf_string(s@) == Some(t@),
            None => pdf_string(s@) is None,
        },
{
    let chars = chars_of(s);
    literal_text(&chars)
}

/// The text that the tokens of a content stream show: for each `Tj` or
/// `TJ` the string literal right before it, with single spaces between
/// them.
pub fn shown_text(tokens: &Vec<Vec<char>>) -> (text: String)
    ensures
        text@ == join_spaced(shown_strings(tokens_view(tokens@), tokens@.len() as int)),
{
    let ghost shown = tokens_view(tokens@);
    let mut text = String::new();
    let mut first = true;
    let mut i: usize = 0;
    while i < tokens.len()
        invariant
            i <= tokens.len(),
            shown == tokens_view(tokens@),
            first == (shown_strings(shown, i as int).len() == 0),
            text@ == join_spaced(shown_strings(shown, i as int)),
        decreases tokens.len() - i,
    {
        let token = &tokens[i];
        proof {
            assert(shown[i as int] == token@);
            if i >= 1 {
                assert(shown[i as int - 1] == tokens@[i as int - 1]@);
            }
        }
        let shows = token.len() == 2 && token[0] == 'T' && (token[1] == 'j' || token[1] == 'J');
        if shows && i >= 1 {
            match literal_text(&tokens[i - 1]) {
                Some(part) => {
                    let ghost before = shown_strings(shown, i as int);
                    proof {
                        let parts = before.push(part@);
                        assert(parts.drop_last() == before);
                        assert(parts.last() == part@);
                    }
                    if !first {
                        proof {
                            reveal_strlit(" ");
                            assert(" "@ == seq![' ']);
                        }
                        text.append(" ");
                    }
                    text.append(part.as_str());
                    first = false;
                },
                None => {},
            }
        }
        i = i + 1;
    }
    text
}

/// Extracts the text that the operators of a content stream show, such as
/// `(Hello) Tj`. It never fails.
pub fn extract_text_from_operators(content: &str) -> (text: Result<String>)
    ensures
        text matches Ok(t) && t@ == operators_text(content@),
{
    let chars = chars_of(content);
    let tokens = tokenize(&chars);
    Ok(shown_text(&tokens))
}

/// The text of a page, or the need to decode its content stream.
#[derive(Debug, PartialEq, Eq)]
pub enum PageText {
    /// The engine's own extraction gave this text.
    Ready(String),
    /// The engine's extraction gave nothing: the content stream of the page
    /// has to be decoded and handed to [`extract_text_from_content_stream`].
    NeedsContentStream,
}

/// Decides the text of page `page_num` of a document of `page_count` pages
/// from what the engine's own text extraction returned for it. A page
/// outside the document is reported before anything else; an error of the
/// engine is passed on; an empty text asks for the content stream.
pub fn extract_page_text(page_num: u32, page_count: usize, engine_text: Result<String>) -> (text:
    Result<PageText>)
    ensures
        page_num >= page_count ==> text == Err::<PageText, VoxPDFError>(
            VoxPDFError::PageNotFound(page_num, page_count),
        ),
        page_num < page_count ==> match engine_text {
            Err(e) => text == Err::<PageText, VoxPDFError>(e),
            Ok(t) => if t@.len() == 0 {
                text == Ok::<PageText, VoxPDFError>(PageText::NeedsContentStream)
            } else {
                text == Ok::<PageText, VoxPDFError>(PageText::Ready(t))
            },
        },
{
    match check_page(page_num, page_count) {
        Err(e) => Err(e),
        Ok(_) => match engine_text {
            Err(e) => Err(e),
            Ok(t) => {
                if t.as_str().unicode_len() == 0 {
                    Ok(PageText::NeedsContentStream)
                } else {
                    Ok(PageText::Ready(t))
                }
            },
        },
    }
}

/// Extracts the text of a page from its decoded content stream. A stream
/// that could not be decoded fails the page with the decoder's error.
pub fn extract_text_from_content_stream(decoded: Result<String>) -> (text: Result<String>)
    ensures
        match decoded {
            Err(e) => text == Err::<String, VoxPDFError>(e),
            Ok(content) => text matches Ok(t) && t@ == operators_text(content@),
        },
{
    match decoded {
        Err(e) => Err(e),
        Ok(content) => extract_text_from_operators(content.as_str()),
    }
}

} // verus!
