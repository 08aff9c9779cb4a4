//! What holds of tokenizing and formatting, whatever the input.
use vstd::prelude::*;
use crate::input_stream::Cursor;
use crate::layout::{
    final_depth, own_lines, render_line, render_start_tag, render_tokens, single_line,
};
use crate::machine::{tokenize, LexerState, Machine};
use crate::models::{IndentStyle, SourceSpan, StartTagView, TokenView};
use crate::round_trip::{ends_attribute_name, is_attribute_name, is_tag_name};
use crate::utils::utf8_len;

verus! {

/// The number of start tags among `tokens`.
pub open spec fn count_start(tokens: Seq<TokenView>) -> nat
    decreases tokens.len(),
{
    if tokens.len() == 0 {
        0
    } else {
        count_start(tokens.drop_last()) + if tokens.last() is StartTag {
            1nat
        } else {
            0nat
        }
    }
}

/// The number of end tags among `tokens`.
pub open spec fn count_end(tokens: Seq<TokenView>) -> nat
    decreases tokens.len(),
{
    if tokens.len() == 0 {
        0
    } else {
        count_end(tokens.drop_last()) + if tokens.last() is EndTag {
            1nat
        } else {
            0nat
        }
    }
}

/// A token sequence is balanced when no end tag comes before the start tag
/// that it closes and no start tag is left open. Names are not compared.
pub open spec fn balanced(tokens: Seq<TokenView>) -> bool {
    &&& count_start(tokens) == count_end(tokens)
    &&& forall|k: int|
        0 <= k <= tokens.len() ==> count_end(#[trigger] tokens.take(k)) <= count_start(
            tokens.take(k),
        )
}

/// The line of the token at `index` in the formatted text of `tokens`.
pub open spec fn line_at(
    tokens: Seq<TokenView>,
    index: int,
    style: IndentStyle,
    max_line_length: int,
    depth: int,
) -> Seq<char> {
    render_line(tokens[index], style, max_line_length, final_depth(tokens.take(index), depth))
}

/// The depth after some tokens is the starting depth, plus the start tags,
/// minus the end tags.
pub proof fn lemma_depth_counts(tokens: Seq<TokenView>, depth: int)
    ensures
        final_depth(tokens, depth) == depth + count_start(tokens) - count_end(tokens),
    decreases tokens.len(),
{
    if tokens.len() > 0 {
        lemma_depth_counts(tokens.drop_last(), depth);
    }
}

/// The formatted text is made of the lines of its tokens: the text of the
/// first `index + 1` tokens is the text of the first `index` tokens and
/// then the line of the token at `index`.
pub proof fn lemma_text_is_lines(
    tokens: Seq<TokenView>,
    index: int,
    style: IndentStyle,
    max_line_length: int,
    depth: int,
)
    requires
        0 <= index < tokens.len(),
    ensures
        render_tokens(tokens.take(index + 1), style, max_line_length, depth) == render_tokens(
            tokens.take(index),
            style,
            max_line_length,
            depth,
        ) + line_at(tokens, index, style, max_line_length, depth),
{
    assert(tokens.take(index + 1).drop_last() =~= tokens.take(index));
}

/// In a balanced document that is formatted from depth 0, character data
/// stands as deep as there are start tags before it that no end tag before
/// it has closed: its line is that many indentation units, the text as it
/// is, and a newline.
pub proof fn law_depth_of_character_data(
    tokens: Seq<TokenView>,
    index: int,
    style: IndentStyle,
    max_line_length: int,
)
    requires
        balanced(tokens),
        0 <= index < tokens.len(),
        tokens[index] is Chars,
    ensures
        ({
            let open = count_start(tokens.take(index)) - count_end(tokens.take(index));
            &&& open >= 0
            &&& final_depth(tokens.take(index), 0) == open
            &&& style.indentation(open).len() == open
            &&& line_at(tokens, index, style, max_line_length, 0) == style.indentation(open)
                + tokens[index]->Chars_0.text + seq!['\n']
        }),
{
    lemma_depth_counts(tokens.take(index), 0);
}

/// What closes a start tag: `/>` where it is self-closing, else `>`.
pub open spec fn closing(tag: StartTagView) -> Seq<char> {
    if tag.self_closing {
        seq!['/', '>']
    } else {
        seq!['>']
    }
}

/// The attributes of a start tag stand on the tag's own line, after one
/// space, exactly when their single-line rendering is no longer than the
/// maximal line length; otherwise each stands on a line of its own, one
/// level deeper than the tag. Which of the two it is shows in the
/// character behind the tag name: a space or a line break.
pub proof fn law_wrap_threshold(
    tag: StartTagView,
    style: IndentStyle,
    max_line_length: int,
    depth: int,
)
    requires
        tag.attributes.len() > 0,
    ensures
        utf8_len(single_line(tag.attributes)) <= max_line_length ==> render_start_tag(
            tag,
            style,
            max_line_length,
            depth,
        ) == seq!['<'] + tag.name + seq![' '] + single_line(tag.attributes) + closing(tag),
        utf8_len(single_line(tag.attributes)) > max_line_length ==> render_start_tag(
            tag,
            style,
            max_line_length,
            depth,
        ) == seq!['<'] + tag.name + seq!['\n'] + own_lines(
            tag.attributes,
            style.indentation(depth + 1),
        ) + closing(tag),
        utf8_len(single_line(tag.attributes)) <= max_line_length <==> render_start_tag(
            tag,
            style,
            max_line_length,
            depth,
        )[1 + tag.name.len() as int] == ' ',
        utf8_len(single_line(tag.attributes)) > max_line_length <==> render_start_tag(
            tag,
            style,
            max_line_length,
            depth,
        )[1 + tag.name.len() as int] == '\n',
{
    let rendered = render_start_tag(tag, style, max_line_length, depth);
    if utf8_len(single_line(tag.attributes)) <= max_line_length {
        assert(rendered =~= seq!['<'] + tag.name + seq![' '] + single_line(tag.attributes)
            + closing(tag));
    } else {
        assert(rendered =~= seq!['<'] + tag.name + seq!['\n'] + own_lines(
            tag.attributes,
            style.indentation(depth + 1),
        ) + closing(tag));
    }
}

/// The rendering of a self-closing start tag ends in `/>`, and so its line
/// ends in `/>` and a newline.
pub proof fn law_self_closing_preserved(
    tag: StartTagView,
    style: IndentStyle,
    max_line_length: int,
    depth: int,
)
    requires
        tag.self_closing,
    ensures
        ({
            let rendered = render_start_tag(tag, style, max_line_length, depth);
            let line = render_line(TokenView::StartTag(tag), style, max_line_length, depth);
            &&& rendered.len() >= 2
            &&& rendered.subrange(rendered.len() - 2, rendered.len() as int) == seq!['/', '>']
            &&& line.len() >= 3
            &&& line.subrange(line.len() - 3, line.len() as int) == seq!['/', '>', '\n']
        }),
{
    let rendered = render_start_tag(tag, style, max_line_length, depth);
    let line = render_line(TokenView::StartTag(tag), style, max_line_length, depth);
    assert(rendered.subrange(rendered.len() - 2, rendered.len() as int) =~= seq!['/', '>']);
    assert(line.subrange(line.len() - 3, line.len() as int) =~= seq!['/', '>', '\n']);
}

/// The text that a document is formatted to, where the tokenizer does not
/// stall on it.
pub open spec fn formatted_text(input: Seq<char>, style: IndentStyle, max_line_length: int) -> Seq<
    char,
> {
    render_tokens(tokenize(input).tokens, style, max_line_length, 0)
}

/// A document without any token is formatted to the empty text, and the
/// empty text is formatted to itself: formatting it again changes nothing.
pub proof fn law_formatting_twice(input: Seq<char>, style: IndentStyle, max_line_length: int)
    requires
        tokenize(input).tokens.len() == 0,
    ensures
        formatted_text(formatted_text(input, style, max_line_length), style, max_line_length)
            == formatted_text(input, style, max_line_length),
{
    let once = formatted_text(input, style, max_line_length);
    assert(once =~= Seq::<char>::empty());
    assert(Machine::start(Cursor::start(once)).cursor.at_end());
}

/// The span of a token, whatever its kind.
pub open spec fn span_of_token(token: TokenView) -> Option<SourceSpan> {
    match token {
        TokenView::StartTag(tag) => tag.span,
        TokenView::EndTag(tag) => tag.span,
        TokenView::Chars(chars) => chars.span,
    }
}

/// What holds of the tokenizer in every state that it reaches: every
/// token but the last is closed; the last is closed between tokens, is
/// open character data while character data is read, and is an open tag
/// inside a tag; and an attribute is under construction wherever
/// characters are added to one.
pub open spec fn orderly(m: Machine) -> bool {
    &&& forall|i: int| 0 <= i < m.tokens.len() - 1 ==> span_of_token(#[trigger] m.tokens[i]) is Some
    &&& match m.state {
        LexerState::BeforeData | LexerState::TagOpen | LexerState::EndTagOpen => m.tokens.len() > 0
            ==> span_of_token(m.tokens.last()) is Some,
        LexerState::Chars => m.tokens.len() > 0 && m.tokens.last() is Chars && span_of_token(
            m.tokens.last(),
        ) is None,
        _ => m.tokens.len() > 0 && !(m.tokens.last() is Chars) && span_of_token(m.tokens.last())
            is None,
    }
    &&& match m.state {
        LexerState::AttributeName
        | LexerState::AfterAttributeName
        | LexerState::BeforeAttributeValue
        | LexerState::AttributeValueDoubleQuoted
        | LexerState::AttributeValueSingleQuoted
        | LexerState::AttributeValueUnquoted => m.attribute is Some,
        _ => true,
    }
}

/// A step keeps the tokenizer orderly, consumes at most one character,
/// never drops a token and leaves every closed token as it is.
pub proof fn law_step_is_orderly(m: Machine)
    requires
        orderly(m),
    ensures
        orderly(m.step()),
        m.cursor.pos <= m.step().cursor.pos <= m.cursor.pos + 1,
        m.step().tokens.len() >= m.tokens.len(),
        forall|i: int|
            0 <= i < m.tokens.len() && span_of_token(m.tokens[i]) is Some ==> (
            #[trigger] m.step().tokens[i]) == m.tokens[i],
{
}

/// The tokenizer stays orderly all the way.
pub proof fn lemma_run_is_orderly(m: Machine)
    requires
        orderly(m),
    ensures
        orderly(m.run()),
    decreases m.remaining(), m.rank(),
{
    if m.cursor.at_end() || m.stalled() {
    } else {
        m.lemma_step_makes_progress();
        law_step_is_orderly(m);
        lemma_run_is_orderly(m.step());
    }
}

/// In the tokens of a document only the last can still be open: every
/// other token has its span.
pub proof fn law_only_the_last_token_is_open(input: Seq<char>)
    ensures
        orderly(tokenize(input)),
        forall|i: int|
            0 <= i < tokenize(input).tokens.len() - 1 ==> span_of_token(
                #[trigger] tokenize(input).tokens[i],
            ) is Some,
{
    lemma_run_is_orderly(Machine::start(Cursor::start(input)));
}

/// Whether a text holds no `<`.
pub open spec fn is_character_data(text: Seq<char>) -> bool {
    forall|i: int| 0 <= i < text.len() ==> #[trigger] text[i] != '<'
}

/// What the tokenizer puts into a token: character data without `<`, tag
/// names that it reads as one name, and attribute names likewise.
pub open spec fn is_well_formed(token: TokenView) -> bool {
    match token {
        TokenView::Chars(chars) => is_character_data(chars.text),
        TokenView::EndTag(tag) => is_tag_name(tag.name),
        TokenView::StartTag(tag) => is_tag_name(tag.name) && forall|j: int|
            0 <= j < tag.attributes.len() ==> is_attribute_name(
                (#[trigger] tag.attributes[j]).name,
            ),
    }
}

/// What holds of the content of the tokens in every state that the
/// tokenizer reaches: each token is well formed, and so is the name of the
/// attribute under construction as soon as it has its first character.
pub open spec fn tidy(m: Machine) -> bool {
    &&& orderly(m)
    &&& forall|i: int| 0 <= i < m.tokens.len() ==> is_well_formed(#[trigger] m.tokens[i])
    &&& match m.state {
        LexerState::AttributeName => m.attribute matches Some(a) && (is_attribute_name(a.name) || (
        a.name.len() == 0 && !m.cursor.at_end() && !ends_attribute_name(m.cursor.peek()))),
        LexerState::AfterAttributeName
        | LexerState::BeforeAttributeValue
        | LexerState::AttributeValueDoubleQuoted
        | LexerState::AttributeValueSingleQuoted
        | LexerState::AttributeValueUnquoted => m.attribute matches Some(a) && is_attribute_name(
            a.name,
        ),
        _ => true,
    }
}

/// A step keeps the tokens well formed.
pub proof fn lemma_step_is_tidy(m: Machine)
    requires
        tidy(m),
    ensures
        tidy(m.step()),
{
    law_step_is_orderly(m);
}

/// The tokens stay well formed all the way.
pub proof fn lemma_run_is_tidy(m: Machine)
    requires
        tidy(m),
    ensures
        tidy(m.run()),
    decreases m.remaining(), m.rank(),
{
    if m.cursor.at_end() || m.stalled() {
    } else {
        m.lemma_step_makes_progress();
        lemma_step_is_tidy(m);
        lemma_run_is_tidy(m.step());
    }
}

/// A closed token stays as it is.
pub proof fn lemma_closed_token_stays(m: Machine, i: int)
    requires
        orderly(m),
        0 <= i < m.tokens.len(),
        span_of_token(m.tokens[i]) is Some,
    ensures
        i < m.run().tokens.len(),
        m.run().tokens[i] == m.tokens[i],
        m.run().cursor.input == m.cursor.input,
    decreases m.remaining(), m.rank(),
{
    if m.cursor.at_end() || m.stalled() {
    } else {
        m.lemma_step_makes_progress();
        law_step_is_orderly(m);
        assert(m.step().tokens[i] == m.tokens[i]);
        lemma_closed_token_stays(m.step(), i);
    }
}

/// Every token of a document is well formed: character data holds no `<`,
/// a tag name begins with a letter and holds no whitespace, `/` or `>`,
/// and an attribute name is not empty, holds no whitespace, `/` or `>`,
/// and `=` at most at its beginning.
pub proof fn law_tokens_are_well_formed(input: Seq<char>)
    ensures
        tidy(tokenize(input)),
        forall|i: int|
            0 <= i < tokenize(input).tokens.len() ==> is_well_formed(
                #[trigger] tokenize(input).tokens[i],
            ),
{
    lemma_run_is_tidy(Machine::start(Cursor::start(input)));
}

} // verus!
