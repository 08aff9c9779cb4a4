//! The only text that is formatted to itself is the empty text.
use vstd::prelude::*;
use crate::input_stream::Cursor;
use crate::laws::{
    closing, formatted_text, is_well_formed, law_formatting_twice, law_step_is_orderly,
    lemma_closed_token_stays, lemma_run_is_tidy, lemma_step_is_tidy, lemma_text_is_lines,
    line_at, orderly, span_of_token, tidy,
};
use crate::layout::{depth_after, final_depth, render_attribute, render_line, render_tokens};
use crate::machine::{tokenize, LexerState, Machine};
use crate::models::{AttributeView, EndTagView, IndentStyle, StartTagView, TokenView};
use crate::round_trip::{
    all_quotable, attributes_text, ends_tag_name, has_at, is_attribute_name, is_quotable,
    is_tag_name, is_whitespace_only, lemma_attribute_stays, lemma_attributes_text_begins_with,
    lemma_begin_tag, lemma_close_tag, lemma_first_quote, lemma_first_unquotable,
    lemma_has_at_beginning, lemma_has_at_rest, lemma_has_at_split, lemma_line_of_start_tag,
    lemma_outcome_is_run, lemma_read_attributes, lemma_read_cut_attribute,
    lemma_read_indentation, lemma_step, outcome, separator, stands_at, survives,
};
use crate::walker::format_document;

verus! {

/// The token at `index` is character data that was read from `from` on,
/// and it ends where the input ends or before the next `<`.
pub open spec fn is_run_of_character_data(m: Machine, index: int, from: int) -> bool {
    &&& 0 <= index < m.tokens.len()
    &&& m.tokens[index] matches TokenView::Chars(chars)
    &&& has_at(m.cursor.input, from, chars.text)
    &&& {
        let end = from + chars.text.len();
        ||| (m.state == LexerState::Chars && m.tokens.len() == index + 1 && m.cursor.pos == end)
        ||| (end < m.cursor.input.len() && m.cursor.input[end] == '<' && (m.state
            != LexerState::Chars || m.tokens.len() > index + 1))
    }
}

/// Character data, once begun, is read up to the next `<` or to the end
/// of the input, and is left alone from there on.
pub proof fn lemma_character_data_runs_on(m: Machine, index: int, from: int)
    requires
        orderly(m),
        is_run_of_character_data(m, index, from),
    ensures
        is_run_of_character_data(m.run(), index, from),
        m.run().cursor.input == m.cursor.input,
        m.run().cursor.at_end() || m.run().stalled(),
    decreases m.remaining(), m.rank(),
{
    if m.cursor.at_end() || m.stalled() {
    } else {
        m.lemma_step_makes_progress();
        law_step_is_orderly(m);
        let chars = m.tokens[index]->Chars_0;
        if m.state == LexerState::Chars && m.tokens.len() == index + 1 {
            let c = m.cursor.peek();
            if c != '<' {
                let grown = chars.text.push(c);
                assert forall|i: int| 0 <= i < grown.len() implies m.cursor.input[from + i]
                    == #[trigger] grown[i] by {
                    if i < chars.text.len() {
                        assert(grown[i] == chars.text[i]);
                    }
                }
            }
        } else {
            assert(m.step().tokens[index] == m.tokens[index]);
        }
        lemma_character_data_runs_on(m.step(), index, from);
    }
}

/// The text of the first `count` tokens begins the text of all tokens.
pub proof fn lemma_text_begins_with(
    tokens: Seq<TokenView>,
    count: int,
    style: IndentStyle,
    max_line_length: int,
    depth: int,
)
    requires
        0 <= count <= tokens.len(),
    ensures
        has_at(
            render_tokens(tokens, style, max_line_length, depth),
            0,
            render_tokens(tokens.take(count), style, max_line_length, depth),
        ),
    decreases tokens.len() - count,
{
    if count == tokens.len() {
        assert(tokens.take(count) =~= tokens);
    } else {
        lemma_text_begins_with(tokens, count + 1, style, max_line_length, depth);
        lemma_text_is_lines(tokens, count, style, max_line_length, depth);
        lemma_has_at_split(
            render_tokens(tokens, style, max_line_length, depth),
            0,
            render_tokens(tokens.take(count), style, max_line_length, depth),
            line_at(tokens, count, style, max_line_length, depth),
        );
    }
}

/// The text of some tokens begins with the line of the first.
pub proof fn lemma_text_begins_with_first_line(
    tokens: Seq<TokenView>,
    style: IndentStyle,
    max_line_length: int,
)
    requires
        tokens.len() > 0,
    ensures
        has_at(
            render_tokens(tokens, style, max_line_length, 0),
            0,
            render_line(tokens[0], style, max_line_length, 0),
        ),
{
    lemma_text_begins_with(tokens, 1, style, max_line_length, 0);
    lemma_text_is_lines(tokens, 0, style, max_line_length, 0);
    assert(tokens.take(0) =~= Seq::<TokenView>::empty());
    assert(render_tokens(tokens.take(1), style, max_line_length, 0) =~= render_line(
        tokens[0],
        style,
        max_line_length,
        0,
    ));
}

/// A text that is formatted to itself does not begin with character data.
proof fn lemma_fixed_text_has_no_character_data_first(
    text: Seq<char>,
    style: IndentStyle,
    max_line_length: int,
)
    requires
        formatted_text(text, style, max_line_length) == text,
        tokenize(text).tokens.len() > 0,
    ensures
        !(tokenize(text).tokens[0] is Chars),
{
    let start = Machine::start(Cursor::start(text));
    let tokens = tokenize(text).tokens;
    if tokens[0] is Chars {
        let chars = tokens[0]->Chars_0;
        lemma_run_is_tidy(start);
        assert(is_well_formed(tokens[0]));
        lemma_text_begins_with_first_line(tokens, style, max_line_length);
        let line = render_line(tokens[0], style, max_line_length, 0);
        assert(line =~= chars.text + seq!['\n']);
        assert(text.len() > 0);
        assert(text[0] == line[0]);
        assert(text[0] != '<');
        let begun = start.step();
        assert(start.run() == begun.run());
        law_step_is_orderly(start);
        assert(is_run_of_character_data(begun, 0, 0));
        lemma_character_data_runs_on(begun, 0, 0);
        assert(text[0 + chars.text.len() as int] == line[chars.text.len() as int]);
    }
}

/// The text of some tokens begins with the lines of the first two.
pub proof fn lemma_text_begins_with_two_lines(
    tokens: Seq<TokenView>,
    style: IndentStyle,
    max_line_length: int,
)
    requires
        tokens.len() > 1,
    ensures
        has_at(
            render_tokens(tokens, style, max_line_length, 0),
            0,
            render_line(tokens[0], style, max_line_length, 0) + render_line(
                tokens[1],
                style,
                max_line_length,
                depth_after(tokens[0], 0),
            ),
        ),
{
    lemma_text_begins_with(tokens, 2, style, max_line_length, 0);
    lemma_text_is_lines(tokens, 0, style, max_line_length, 0);
    lemma_text_is_lines(tokens, 1, style, max_line_length, 0);
    assert(tokens.take(0) =~= Seq::<TokenView>::empty());
    assert(tokens.take(1).drop_last() =~= tokens.take(0));
    assert(tokens.take(1).last() == tokens[0]);
    assert(final_depth(tokens.take(1), 0) == depth_after(tokens[0], 0));
    assert(render_tokens(tokens.take(1), style, max_line_length, 0) =~= render_line(
        tokens[0],
        style,
        max_line_length,
        0,
    ));
}

/// Once the tokenizer has read a first tag from the line that the tag is
/// formatted to, the line break behind it begins character data, whose
/// line is longer than the character data itself: the text is not
/// formatted to itself.
proof fn lemma_no_tag_first(
    text: Seq<char>,
    style: IndentStyle,
    max_line_length: int,
    m: Machine,
    q: int,
)
    requires
        formatted_text(text, style, max_line_length) == text,
        outcome(m) == tokenize(text),
        tidy(m),
        m.state == LexerState::BeforeData,
        stands_at(m, text, q),
        m.tokens.len() == 1,
        !(m.tokens[0] is Chars),
        span_of_token(m.tokens[0]) is Some,
        render_line(m.tokens[0], style, max_line_length, 0).len() == q + 1,
    ensures
        text.len() == 0,
{
    let tokens = tokenize(text).tokens;
    lemma_outcome_is_run(m);
    lemma_closed_token_stays(m, 0);
    lemma_run_is_tidy(m);
    let first = render_line(tokens[0], style, max_line_length, 0);
    assert(first[q] == '\n');
    lemma_text_begins_with_first_line(tokens, style, max_line_length);
    assert(text[0 + q] == first[q]);
    let begun = m.step();
    lemma_step_is_tidy(m);
    assert(m.run() == begun.run());
    assert(is_run_of_character_data(begun, 1, q));
    lemma_character_data_runs_on(begun, 1, q);
    let chars = tokens[1]->Chars_0;
    let data = chars.text;
    assert(is_well_formed(tokens[1]));
    let depth = depth_after(tokens[0], 0);
    let indentation = style.indentation(depth);
    let second = render_line(tokens[1], style, max_line_length, depth);
    assert(second =~= indentation + data + seq!['\n']);
    lemma_text_begins_with_two_lines(tokens, style, max_line_length);
    lemma_has_at_split(text, 0, first, second);
    let p = q + 1;
    assert(has_at(text, p, second));
    assert(data.len() > 0);
    if indentation.len() == 0 {
        let i = data.len() - 1;
        assert(text[p + i] == second[i]);
        assert(second[i] == data[i]);
    } else {
        assert(indentation.len() == 1);
        assert(indentation[0] == style.unit());
        if data.len() == 1 {
            assert(text[p + 0] == second[0]);
        } else {
            let i = data.len() - 1;
            assert(text[p + i] == second[i]);
            assert(second[i] == data[i - 1]);
        }
    }
}

/// The name of an end tag is read up to the next character that ends it.
pub proof fn lemma_read_end_tag_name(
    m: Machine,
    before: Seq<TokenView>,
    tag: EndTagView,
    text: Seq<char>,
) -> (m2: Machine)
    requires
        m.state == LexerState::EndTagName,
        m.tokens == before.push(TokenView::EndTag(tag)),
        has_at(m.cursor.input, m.cursor.pos as int, text),
        forall|i: int| 0 <= i < text.len() ==> !ends_tag_name(#[trigger] text[i]),
    ensures
        outcome(m2) == outcome(m),
        m2.state == LexerState::EndTagName,
        stands_at(m2, m.cursor.input, (m.cursor.pos + text.len()) as int),
        m2.tokens == before.push(TokenView::EndTag(EndTagView { name: tag.name + text, ..tag })),
    decreases text.len(),
{
    if text.len() == 0 {
        assert(tag.name + text =~= tag.name);
        m
    } else {
        lemma_has_at_rest(m.cursor.input, m.cursor.pos as int, text);
        let c = text[0];
        let m1 = m.step();
        lemma_step(m);
        let grown = EndTagView { name: tag.name.push(c), ..tag };
        assert(m1.tokens =~= before.push(TokenView::EndTag(grown)));
        let m2 = lemma_read_end_tag_name(m1, before, grown, text.drop_first());
        assert(grown.name + text.drop_first() =~= tag.name + text);
        m2
    }
}

/// `</`, a tag name and `>` at the beginning are read as a closed end tag.
pub proof fn lemma_read_end_tag(m: Machine, name: Seq<char>) -> (m2: Machine)
    requires
        m.state == LexerState::BeforeData,
        m.tokens.len() == 0,
        has_at(m.cursor.input, m.cursor.pos as int, seq!['<', '/'] + (name + seq!['>'])),
        is_tag_name(name),
    ensures
        outcome(m2) == outcome(m),
        m2.state == LexerState::BeforeData,
        stands_at(m2, m.cursor.input, (m.cursor.pos + name.len() + 3) as int),
        m2.tokens.len() == 1,
        m2.tokens[0] matches TokenView::EndTag(tag) && tag.name == name && tag.span is Some,
{
    let input = m.cursor.input;
    let pos = m.cursor.pos as int;
    let open = seq!['<', '/'];
    lemma_has_at_split(input, pos, open, name + seq!['>']);
    assert(input[pos + 0] == open[0]);
    assert(input[pos + 1] == open[1]);
    let m1 = m.step();
    lemma_step(m);
    let m2 = m1.step();
    lemma_step(m1);
    assert(m2.state == LexerState::EndTagOpen);
    lemma_has_at_split(input, pos + 2, name, seq!['>']);
    lemma_has_at_rest(input, pos + 2, name);
    let c = name[0];
    let m3 = m2.step();
    lemma_step(m2);
    let begun = EndTagView { name: seq![c], span: None };
    assert(Seq::<char>::empty().push(c) =~= seq![c]);
    assert(m3.tokens =~= Seq::<TokenView>::empty().push(TokenView::EndTag(begun)));
    let rest = name.drop_first();
    assert forall|i: int| 0 <= i < rest.len() implies !ends_tag_name(#[trigger] rest[i]) by {
        assert(rest[i] == name[i + 1]);
    }
    let m4 = lemma_read_end_tag_name(m3, Seq::empty(), begun, rest);
    assert(seq![c] + rest =~= name);
    assert(input[pos + 2 + name.len() + 0] == seq!['>'][0]);
    let m5 = m4.step();
    lemma_step(m4);
    m5
}

/// A text that is formatted to itself does not begin with an end tag.
proof fn lemma_fixed_text_has_no_end_tag_first(
    text: Seq<char>,
    style: IndentStyle,
    max_line_length: int,
)
    requires
        formatted_text(text, style, max_line_length) == text,
        tokenize(text).tokens.len() > 0,
    ensures
        !(tokenize(text).tokens[0] is EndTag),
{
    let start = Machine::start(Cursor::start(text));
    let tokens = tokenize(text).tokens;
    if tokens[0] is EndTag {
        let tag = tokens[0]->EndTag_0;
        lemma_run_is_tidy(start);
        assert(is_well_formed(tokens[0]));
        lemma_text_begins_with_first_line(tokens, style, max_line_length);
        let line = render_line(tokens[0], style, max_line_length, 0);
        assert(line =~= (seq!['<', '/'] + (tag.name + seq!['>'])) + seq!['\n']);
        lemma_has_at_split(text, 0, seq!['<', '/'] + (tag.name + seq!['>']), seq!['\n']);
        let m = lemma_read_end_tag(start, tag.name);
        lemma_outcome_is_run(start);
        lemma_no_tag_first(text, style, max_line_length, m, tag.name.len() as int + 3);
    }
}

/// `<`, a tag name, attributes behind their separators and `>` or `/>` at
/// the beginning are read as a closed start tag.
pub proof fn lemma_read_start_tag(m: Machine, tag: StartTagView, between: Seq<char>) -> (m2:
    Machine)
    requires
        m.state == LexerState::BeforeData,
        m.tokens.len() == 0,
        has_at(
            m.cursor.input,
            m.cursor.pos as int,
            seq!['<'] + (tag.name + (attributes_text(tag.attributes, between) + closing(tag))),
        ),
        between.len() > 0,
        is_whitespace_only(between),
        survives(tag),
    ensures
        outcome(m2) == outcome(m),
        m2.state == LexerState::BeforeData,
        stands_at(
            m2,
            m.cursor.input,
            (m.cursor.pos + 1 + tag.name.len() + attributes_text(tag.attributes, between).len()
                + closing(tag).len()) as int,
        ),
        m2.tokens.len() == 1,
        m2.tokens[0] matches TokenView::StartTag(again) && again.name == tag.name
            && again.attributes == tag.attributes && again.self_closing == tag.self_closing
            && again.span is Some,
{
    let input = m.cursor.input;
    let pos = m.cursor.pos as int;
    let attributes = attributes_text(tag.attributes, between);
    let close = closing(tag);
    let tail2 = attributes + close;
    let tail1 = tag.name + tail2;
    lemma_has_at_split(input, pos, seq!['<'], tail1);
    assert(Seq::<char>::empty() + seq!['<'] =~= seq!['<']);
    let m1 = lemma_read_indentation(m, Seq::empty());
    let p1 = pos + 1;
    lemma_has_at_split(input, p1, tag.name, tail2);
    let m2 = lemma_begin_tag(m1, tag.name);
    let p2 = p1 + tag.name.len();
    lemma_has_at_split(input, p2, attributes, close);
    let begun = StartTagView {
        name: tag.name,
        attributes: Seq::empty(),
        self_closing: false,
        span: None,
    };
    assert(m1.tokens =~= Seq::<TokenView>::empty());
    let m3 = lemma_read_attributes(m2, Seq::empty(), begun, between, tag.attributes);
    assert(Seq::<AttributeView>::empty() + tag.attributes =~= tag.attributes);
    let read = StartTagView { attributes: tag.attributes, ..begun };
    let m4 = lemma_close_tag(m3, Seq::empty(), read, tag.self_closing);
    m4
}

/// A text that is formatted to itself does not begin with a start tag
/// whose values can all stand between double quotes.
proof fn lemma_fixed_text_has_no_quotable_start_tag_first(
    text: Seq<char>,
    style: IndentStyle,
    max_line_length: int,
)
    requires
        formatted_text(text, style, max_line_length) == text,
        tokenize(text).tokens.len() > 0,
    ensures
        !(tokenize(text).tokens[0] matches TokenView::StartTag(tag) && all_quotable(
            tag.attributes,
        )),
{
    let start = Machine::start(Cursor::start(text));
    let tokens = tokenize(text).tokens;
    if tokens[0] matches TokenView::StartTag(tag) && all_quotable(tag.attributes) {
        let tag = tokens[0]->StartTag_0;
        lemma_run_is_tidy(start);
        assert(is_well_formed(tokens[0]));
        assert(survives(tag));
        lemma_text_begins_with_first_line(tokens, style, max_line_length);
        let line = render_line(tokens[0], style, max_line_length, 0);
        let between = separator(tag.attributes, style, max_line_length, 0);
        lemma_line_of_start_tag(tag, style, max_line_length, 0);
        let body = tag.name + (attributes_text(tag.attributes, between) + closing(tag));
        assert(line =~= (seq!['<'] + body) + seq!['\n']);
        lemma_has_at_split(text, 0, seq!['<'] + body, seq!['\n']);
        let m = lemma_read_start_tag(start, tag, between);
        lemma_outcome_is_run(start);
        lemma_no_tag_first(text, style, max_line_length, m, line.len() - 1);
    }
}

/// A text that is formatted to itself does not begin with a start tag
/// that has a double quote in a value.
proof fn lemma_fixed_text_has_no_unquotable_start_tag_first(
    text: Seq<char>,
    style: IndentStyle,
    max_line_length: int,
)
    requires
        formatted_text(text, style, max_line_length) == text,
        tokenize(text).tokens.len() > 0,
    ensures
        !(tokenize(text).tokens[0] matches TokenView::StartTag(tag) && !all_quotable(
            tag.attributes,
        )),
{
    let start = Machine::start(Cursor::start(text));
    let tokens = tokenize(text).tokens;
    if tokens[0] matches TokenView::StartTag(tag) && !all_quotable(tag.attributes) {
        let tag = tokens[0]->StartTag_0;
        let attributes = tag.attributes;
        lemma_run_is_tidy(start);
        assert(is_well_formed(tokens[0]));
        let j = lemma_first_unquotable(attributes, 0);
        let broken = attributes[j];
        let cut = lemma_first_quote(broken.value, 0);
        lemma_text_begins_with_first_line(tokens, style, max_line_length);
        let line = render_line(tokens[0], style, max_line_length, 0);
        let between = separator(attributes, style, max_line_length, 0);
        lemma_line_of_start_tag(tag, style, max_line_length, 0);
        let written = attributes_text(attributes, between);
        let tail2 = written + (closing(tag) + seq!['\n']);
        let tail1 = tag.name + tail2;
        assert(line =~= seq!['<'] + tail1);
        lemma_has_at_split(text, 0, seq!['<'], tail1);
        lemma_has_at_split(text, 1, tag.name, tail2);
        let p2: int = 1 + tag.name.len() as int;
        lemma_has_at_split(text, p2, written, closing(tag) + seq!['\n']);
        // The attributes up to the broken one stand in the text.
        let read = attributes.take(j);
        lemma_attributes_text_begins_with(attributes, between, j + 1);
        assert(attributes.take(j + 1).drop_last() =~= read);
        assert(attributes.take(j + 1).last() == broken);
        lemma_has_at_beginning(text, p2, written, attributes_text(attributes.take(j + 1), between));
        lemma_has_at_split(
            text,
            p2,
            attributes_text(read, between),
            between + render_attribute(broken),
        );
        // The tokenizer reads them, and the broken one up to the quote.
        assert(Seq::<char>::empty() + seq!['<'] =~= seq!['<']);
        let m1 = lemma_read_indentation(start, Seq::empty());
        let m2 = lemma_begin_tag(m1, tag.name);
        let begun = StartTagView {
            name: tag.name,
            attributes: Seq::empty(),
            self_closing: false,
            span: None,
        };
        assert(m1.tokens =~= Seq::<TokenView>::empty());
        assert forall|k: int| 0 <= k < read.len() implies is_attribute_name(
            (#[trigger] read[k]).name,
        ) && is_quotable(read[k].value) by {
            assert(read[k] == attributes[k]);
        }
        let m3 = lemma_read_attributes(m2, Seq::empty(), begun, between, read);
        assert(Seq::<AttributeView>::empty() + read =~= read);
        let so_far = StartTagView { attributes: read, ..begun };
        let m4 = lemma_read_cut_attribute(m3, Seq::empty(), so_far, between, broken, cut);
        let kept = AttributeView { name: broken.name, value: broken.value.take(cut) };
        lemma_outcome_is_run(start);
        lemma_outcome_is_run(m4);
        lemma_attribute_stays(m4, 0, j, kept);
        assert(kept.value.len() == cut);
    }
}

/// Some tokens are formatted to some text.
pub proof fn lemma_tokens_have_text(
    tokens: Seq<TokenView>,
    style: IndentStyle,
    max_line_length: int,
    depth: int,
)
    requires
        tokens.len() > 0,
    ensures
        render_tokens(tokens, style, max_line_length, depth).len() > 0,
{
}

/// No text but the empty text is formatted to itself.
pub proof fn law_only_the_empty_text_is_formatted_to_itself(
    text: Seq<char>,
    style: IndentStyle,
    max_line_length: int,
)
    requires
        formatted_text(text, style, max_line_length) == text,
    ensures
        text.len() == 0,
        tokenize(text).tokens.len() == 0,
{
    if tokenize(text).tokens.len() > 0 {
        lemma_fixed_text_has_no_character_data_first(text, style, max_line_length);
        lemma_fixed_text_has_no_end_tag_first(text, style, max_line_length);
        lemma_fixed_text_has_no_quotable_start_tag_first(text, style, max_line_length);
        lemma_fixed_text_has_no_unquotable_start_tag_first(text, style, max_line_length);
    }
}

/// Formatting a document again changes nothing exactly when the document
/// has no token: then it is formatted to the empty text, which is
/// formatted to itself; with any token the first formatting ends each line
/// with a line break that the second reads as character data of its own.
pub proof fn law_formatting_twice_exactly(
    input: Seq<char>,
    style: IndentStyle,
    max_line_length: int,
)
    ensures
        formatted_text(formatted_text(input, style, max_line_length), style, max_line_length)
            == formatted_text(input, style, max_line_length) <==> tokenize(input).tokens.len()
            == 0,
{
    let once = formatted_text(input, style, max_line_length);
    if tokenize(input).tokens.len() == 0 {
        law_formatting_twice(input, style, max_line_length);
    } else {
        lemma_tokens_have_text(tokenize(input).tokens, style, max_line_length, 0);
        if formatted_text(once, style, max_line_length) == once {
            law_only_the_empty_text_is_formatted_to_itself(once, style, max_line_length);
        }
    }
}

/// The same of whole documents: where a document can be formatted, the
/// text that comes out is formatted to itself exactly when the document
/// has no token.
pub proof fn law_formatting_a_document_twice(
    input: Seq<char>,
    style: IndentStyle,
    max_line_length: int,
)
    requires
        format_document(input, style, max_line_length) is Ok,
    ensures
        ({
            let once = format_document(input, style, max_line_length)->Ok_0.text;
            (format_document(once, style, max_line_length) matches Ok(twice) && twice.text
                == once) <==> tokenize(input).tokens.len() == 0
        }),
{
    let once = format_document(input, style, max_line_length)->Ok_0.text;
    assert(once == formatted_text(input, style, max_line_length));
    law_formatting_twice_exactly(input, style, max_line_length);
    if tokenize(input).tokens.len() == 0 {
        let again = tokenize(once);
        assert(once =~= Seq::<char>::empty());
        assert(Machine::start(Cursor::start(once)).cursor.at_end());
        assert(again.tokens.take(0) =~= again.tokens);
    }
}

} // verus!
