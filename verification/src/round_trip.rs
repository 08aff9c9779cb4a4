//! Tokenizing the line that a start tag was formatted to gives the start
//! tag back.
use vstd::prelude::*;
use crate::input_stream::Cursor;
use crate::layout::{
    attribute_renderings, exceeds, join, render_attribute, render_attributes, render_line,
    render_start_tag,
};
use crate::laws::{closing, is_well_formed};
use crate::machine::{tokenize, LexerState, Machine};
use crate::models::{AttributeView, CharsView, IndentStyle, StartTagView, TokenView};
use crate::utils::{is_alphabet, is_whitespace};

verus! {

/// Whether a character ends a tag name.
pub open spec fn ends_tag_name(c: char) -> bool {
    is_whitespace(c) || c == '/' || c == '>'
}

/// Whether a character ends an attribute name that it does not begin.
pub open spec fn ends_attribute_name(c: char) -> bool {
    is_whitespace(c) || c == '/' || c == '=' || c == '>'
}

/// A name that the tokenizer reads as one tag name: a letter, then
/// anything but whitespace, `/` and `>`.
pub open spec fn is_tag_name(name: Seq<char>) -> bool {
    &&& name.len() > 0
    &&& is_alphabet(name[0])
    &&& forall|i: int| 1 <= i < name.len() ==> !ends_tag_name(#[trigger] name[i])
}

/// A name that the tokenizer reads as one attribute name: not empty, no
/// whitespace, `/` or `>` in it, and `=` at most at its beginning.
pub open spec fn is_attribute_name(name: Seq<char>) -> bool {
    &&& name.len() > 0
    &&& !ends_tag_name(name[0])
    &&& forall|i: int| 1 <= i < name.len() ==> !ends_attribute_name(#[trigger] name[i])
}

/// A value that can stand between double quotes: it holds none.
pub open spec fn is_quotable(value: Seq<char>) -> bool {
    forall|i: int| 0 <= i < value.len() ==> #[trigger] value[i] != '"'
}

/// Whether a text is made of whitespace alone.
pub open spec fn is_whitespace_only(text: Seq<char>) -> bool {
    forall|i: int| 0 <= i < text.len() ==> is_whitespace(#[trigger] text[i])
}

/// A start tag whose rendering is read back as it was written.
pub open spec fn survives(tag: StartTagView) -> bool {
    &&& is_tag_name(tag.name)
    &&& forall|j: int|
        0 <= j < tag.attributes.len() ==> is_attribute_name((#[trigger] tag.attributes[j]).name)
            && is_quotable(tag.attributes[j].value)
}

/// Whether `text` stands in `input` at `pos`.
pub open spec fn has_at(input: Seq<char>, pos: int, text: Seq<char>) -> bool {
    &&& 0 <= pos
    &&& pos + text.len() <= input.len()
    &&& forall|i: int| 0 <= i < text.len() ==> input[pos + i] == #[trigger] text[i]
}

/// Where two texts stand one behind the other, each of them stands.
pub proof fn lemma_has_at_split(input: Seq<char>, pos: int, a: Seq<char>, b: Seq<char>)
    requires
        has_at(input, pos, a + b),
    ensures
        has_at(input, pos, a),
        has_at(input, pos + a.len(), b),
{
    let ab = a + b;
    assert forall|i: int| 0 <= i < a.len() implies input[pos + i] == #[trigger] a[i] by {
        assert(ab[i] == a[i]);
    }
    assert forall|i: int| 0 <= i < b.len() implies input[pos + a.len() + i] == #[trigger] b[i] by {
        assert(ab[a.len() + i] == b[i]);
    }
}

/// Where a text stands, its first character stands, and the rest behind
/// it.
pub proof fn lemma_has_at_rest(input: Seq<char>, pos: int, text: Seq<char>)
    requires
        has_at(input, pos, text),
        text.len() > 0,
    ensures
        input[pos] == text[0],
        pos < input.len(),
        has_at(input, pos + 1, text.drop_first()),
{
    assert(input[pos + 0] == text[0]);
    let rest = text.drop_first();
    assert forall|i: int| 0 <= i < rest.len() implies input[pos + 1 + i] == #[trigger] rest[i] by {
        assert(text[i + 1] == rest[i]);
    }
}

/// Where the machine ends up from `m`: the same as `m.run()`, under a name
/// that is not unfolded step by step.
#[verifier::opaque]
pub open spec fn outcome(m: Machine) -> Machine {
    m.run()
}

/// `outcome` is `run`.
pub proof fn lemma_outcome_is_run(m: Machine)
    ensures
        outcome(m) == m.run(),
{
    reveal(outcome);
}

/// A step that can be taken does not change where the machine ends up.
pub proof fn lemma_step(m: Machine)
    requires
        !m.cursor.at_end(),
        !m.stalled(),
    ensures
        outcome(m.step()) == outcome(m),
{
    reveal(outcome);
}

/// At the end of the input the machine has ended up.
pub proof fn lemma_ended(m: Machine)
    requires
        m.cursor.at_end(),
    ensures
        outcome(m) == m,
{
    reveal(outcome);
}

/// Whether the machine stands at `pos` of `input`.
pub open spec fn stands_at(m: Machine, input: Seq<char>, pos: int) -> bool {
    m.cursor.input == input && m.cursor.pos == pos
}

/// Character data is read up to the next `<`.
pub proof fn lemma_read_chars(m: Machine, before: Seq<TokenView>, chars: CharsView, text: Seq<char>)
    -> (m2: Machine)
    requires
        m.state == LexerState::Chars,
        m.tokens == before.push(TokenView::Chars(chars)),
        has_at(m.cursor.input, m.cursor.pos as int, text),
        forall|i: int| 0 <= i < text.len() ==> #[trigger] text[i] != '<',
    ensures
        outcome(m2) == outcome(m),
        m2.state == LexerState::Chars,
        stands_at(m2, m.cursor.input, (m.cursor.pos + text.len()) as int),
        m2.tokens == before.push(TokenView::Chars(CharsView { text: chars.text + text, ..chars })),
        m2.start == m.start,
    decreases text.len(),
{
    if text.len() == 0 {
        assert(chars.text + text =~= chars.text);
        m
    } else {
        lemma_has_at_rest(m.cursor.input, m.cursor.pos as int, text);
        let c = text[0];
        let m1 = m.step();
        lemma_step(m);
        let grown = CharsView { text: chars.text.push(c), ..chars };
        assert(m1.tokens =~= before.push(TokenView::Chars(grown)));
        let m2 = lemma_read_chars(m1, before, grown, text.drop_first());
        assert(grown.text + text.drop_first() =~= chars.text + text);
        m2
    }
}

/// A tag name is read up to the next character that ends it.
pub proof fn lemma_read_tag_name(m: Machine, before: Seq<TokenView>, tag: StartTagView, text: Seq<char>)
    -> (m2: Machine)
    requires
        m.state == LexerState::TagName,
        m.tokens == before.push(TokenView::StartTag(tag)),
        has_at(m.cursor.input, m.cursor.pos as int, text),
        forall|i: int| 0 <= i < text.len() ==> !ends_tag_name(#[trigger] text[i]),
    ensures
        outcome(m2) == outcome(m),
        m2.state == LexerState::TagName,
        stands_at(m2, m.cursor.input, (m.cursor.pos + text.len()) as int),
        m2.tokens == before.push(
            TokenView::StartTag(StartTagView { name: tag.name + text, ..tag }),
        ),
    decreases text.len(),
{
    if text.len() == 0 {
        assert(tag.name + text =~= tag.name);
        m
    } else {
        lemma_has_at_rest(m.cursor.input, m.cursor.pos as int, text);
        let c = text[0];
        let m1 = m.step();
        lemma_step(m);
        let grown = StartTagView { name: tag.name.push(c), ..tag };
        assert(m1.tokens =~= before.push(TokenView::StartTag(grown)));
        let m2 = lemma_read_tag_name(m1, before, grown, text.drop_first());
        assert(grown.name + text.drop_first() =~= tag.name + text);
        m2
    }
}

/// Whitespace before an attribute name is skipped.
pub proof fn lemma_skip_whitespace(m: Machine, text: Seq<char>) -> (m2: Machine)
    requires
        m.state == LexerState::BeforeAttributeName,
        has_at(m.cursor.input, m.cursor.pos as int, text),
        is_whitespace_only(text),
    ensures
        outcome(m2) == outcome(m),
        m2.state == LexerState::BeforeAttributeName,
        stands_at(m2, m.cursor.input, (m.cursor.pos + text.len()) as int),
        m2.tokens == m.tokens,
    decreases text.len(),
{
    if text.len() == 0 {
        m
    } else {
        lemma_has_at_rest(m.cursor.input, m.cursor.pos as int, text);
        assert(is_whitespace(text[0]));
        let m1 = m.step();
        lemma_step(m);
        lemma_skip_whitespace(m1, text.drop_first())
    }
}

/// An attribute name is read up to the next character that ends it.
pub proof fn lemma_read_attribute_name(m: Machine, attribute: AttributeView, text: Seq<char>) -> (m2:
    Machine)
    requires
        m.state == LexerState::AttributeName,
        m.attribute == Some(attribute),
        has_at(m.cursor.input, m.cursor.pos as int, text),
        forall|i: int| 0 <= i < text.len() ==> !ends_attribute_name(#[trigger] text[i]),
    ensures
        outcome(m2) == outcome(m),
        m2.state == LexerState::AttributeName,
        stands_at(m2, m.cursor.input, (m.cursor.pos + text.len()) as int),
        m2.tokens == m.tokens,
        m2.attribute == Some(AttributeView { name: attribute.name + text, ..attribute }),
    decreases text.len(),
{
    if text.len() == 0 {
        assert(attribute.name + text =~= attribute.name);
        m
    } else {
        lemma_has_at_rest(m.cursor.input, m.cursor.pos as int, text);
        let c = text[0];
        let m1 = m.step();
        lemma_step(m);
        let grown = AttributeView { name: attribute.name.push(c), ..attribute };
        let m2 = lemma_read_attribute_name(m1, grown, text.drop_first());
        assert(grown.name + text.drop_first() =~= attribute.name + text);
        m2
    }
}

/// A value between double quotes is read up to the next double quote.
pub proof fn lemma_read_quoted_value(m: Machine, attribute: AttributeView, text: Seq<char>) -> (m2:
    Machine)
    requires
        m.state == LexerState::AttributeValueDoubleQuoted,
        m.attribute == Some(attribute),
        has_at(m.cursor.input, m.cursor.pos as int, text),
        is_quotable(text),
    ensures
        outcome(m2) == outcome(m),
        m2.state == LexerState::AttributeValueDoubleQuoted,
        stands_at(m2, m.cursor.input, (m.cursor.pos + text.len()) as int),
        m2.tokens == m.tokens,
        m2.attribute == Some(AttributeView { value: attribute.value + text, ..attribute }),
    decreases text.len(),
{
    if text.len() == 0 {
        assert(attribute.value + text =~= attribute.value);
        m
    } else {
        lemma_has_at_rest(m.cursor.input, m.cursor.pos as int, text);
        let c = text[0];
        let m1 = m.step();
        lemma_step(m);
        let grown = AttributeView { value: attribute.value.push(c), ..attribute };
        let m2 = lemma_read_quoted_value(m1, grown, text.drop_first());
        assert(grown.value + text.drop_first() =~= attribute.value + text);
        m2
    }
}

/// Whitespace after a tag name or after a closing quote leads to where an
/// attribute name may begin.
pub proof fn lemma_read_separator(m: Machine, separator: Seq<char>) -> (m2: Machine)
    requires
        m.state == LexerState::TagName || m.state == LexerState::AfterAttributeValueQuoted,
        has_at(m.cursor.input, m.cursor.pos as int, separator),
        separator.len() > 0,
        is_whitespace_only(separator),
    ensures
        outcome(m2) == outcome(m),
        m2.state == LexerState::BeforeAttributeName,
        stands_at(m2, m.cursor.input, (m.cursor.pos + separator.len()) as int),
        m2.tokens == m.tokens,
{
    lemma_has_at_rest(m.cursor.input, m.cursor.pos as int, separator);
    assert(is_whitespace(separator[0]));
    let m1 = m.step();
    lemma_step(m);
    lemma_skip_whitespace(m1, separator.drop_first())
}

/// The first character of an attribute name begins an attribute.
pub proof fn lemma_begin_attribute_name(m: Machine, c: char) -> (m2: Machine)
    requires
        m.state == LexerState::BeforeAttributeName,
        !m.cursor.at_end(),
        m.cursor.peek() == c,
        !ends_tag_name(c),
    ensures
        outcome(m2) == outcome(m),
        m2.state == LexerState::AttributeName,
        stands_at(m2, m.cursor.input, m.cursor.pos as int + 1),
        m2.tokens == m.tokens,
        m2.attribute == Some(AttributeView { name: seq![c], value: Seq::empty() }),
{
    let empty = AttributeView { name: Seq::empty(), value: Seq::empty() };
    assert(empty.name.push(c) =~= seq![c]);
    let m1 = m.step();
    lemma_step(m);
    if c == '=' {
        m1
    } else {
        let m2 = m1.step();
        lemma_step(m1);
        m2
    }
}

/// `="` after an attribute name opens a quoted value.
pub proof fn lemma_open_value(m: Machine, attribute: AttributeView) -> (m2: Machine)
    requires
        m.state == LexerState::AttributeName,
        m.attribute == Some(attribute),
        has_at(m.cursor.input, m.cursor.pos as int, seq!['=', '"']),
    ensures
        outcome(m2) == outcome(m),
        m2.state == LexerState::AttributeValueDoubleQuoted,
        stands_at(m2, m.cursor.input, m.cursor.pos as int + 2),
        m2.tokens == m.tokens,
        m2.attribute == Some(attribute),
{
    let mark = seq!['=', '"'];
    assert(m.cursor.input[m.cursor.pos as int + 0] == mark[0]);
    assert(m.cursor.input[m.cursor.pos as int + 1] == mark[1]);
    let m1 = m.step();
    lemma_step(m);
    let m2 = m1.step();
    lemma_step(m1);
    m2
}

/// The closing quote moves the attribute onto the open start tag.
pub proof fn lemma_close_value(
    m: Machine,
    before: Seq<TokenView>,
    tag: StartTagView,
    attribute: AttributeView,
) -> (m2: Machine)
    requires
        m.state == LexerState::AttributeValueDoubleQuoted,
        m.attribute == Some(attribute),
        m.tokens == before.push(TokenView::StartTag(tag)),
        !m.cursor.at_end(),
        m.cursor.peek() == '"',
    ensures
        outcome(m2) == outcome(m),
        m2.state == LexerState::AfterAttributeValueQuoted,
        stands_at(m2, m.cursor.input, m.cursor.pos as int + 1),
        m2.tokens == before.push(
            TokenView::StartTag(
                StartTagView { attributes: tag.attributes.push(attribute), ..tag },
            ),
        ),
{
    let m1 = m.step();
    lemma_step(m);
    assert(m1.tokens =~= before.push(
        TokenView::StartTag(StartTagView { attributes: tag.attributes.push(attribute), ..tag }),
    ));
    m1
}

/// One attribute, written as `name="value"` behind some whitespace, is read
/// onto the open start tag.
pub proof fn lemma_read_attribute(
    m: Machine,
    before: Seq<TokenView>,
    tag: StartTagView,
    separator: Seq<char>,
    attribute: AttributeView,
) -> (m2: Machine)
    requires
        m.state == LexerState::TagName || m.state == LexerState::AfterAttributeValueQuoted,
        m.tokens == before.push(TokenView::StartTag(tag)),
        has_at(m.cursor.input, m.cursor.pos as int, separator + render_attribute(attribute)),
        separator.len() > 0,
        is_whitespace_only(separator),
        is_attribute_name(attribute.name),
        is_quotable(attribute.value),
    ensures
        outcome(m2) == outcome(m),
        m2.state == LexerState::AfterAttributeValueQuoted,
        stands_at(
            m2,
            m.cursor.input,
            (m.cursor.pos + separator.len() + render_attribute(attribute).len()) as int,
        ),
        m2.tokens == before.push(
            TokenView::StartTag(
                StartTagView { attributes: tag.attributes.push(attribute), ..tag },
            ),
        ),
{
    let input = m.cursor.input;
    let p0 = m.cursor.pos as int;
    let name = attribute.name;
    let value = attribute.value;
    let tail3 = seq!['"'];
    let tail2 = value + tail3;
    let tail1 = seq!['=', '"'] + tail2;
    assert(render_attribute(attribute) =~= name + tail1);
    lemma_has_at_split(input, p0, separator, name + tail1);
    let a1 = lemma_read_separator(m, separator);
    let p1 = p0 + separator.len();
    lemma_has_at_split(input, p1, name, tail1);
    lemma_has_at_rest(input, p1, name);
    let a2 = lemma_begin_attribute_name(a1, name[0]);
    let first = AttributeView { name: seq![name[0]], value: Seq::empty() };
    let a3 = lemma_read_attribute_name(a2, first, name.drop_first());
    assert(first.name + name.drop_first() =~= name);
    let named = AttributeView { name, value: Seq::empty() };
    let p2 = p1 + name.len();
    lemma_has_at_split(input, p2, seq!['=', '"'], tail2);
    let a4 = lemma_open_value(a3, named);
    let p3 = p2 + 2;
    lemma_has_at_split(input, p3, value, tail3);
    let a5 = lemma_read_quoted_value(a4, named, value);
    assert(named.value + value =~= value);
    let p4 = p3 + value.len();
    assert(input[p4 + 0] == tail3[0]);
    lemma_close_value(a5, before, tag, attribute)
}

/// The attributes of a start tag with what stands before each of them.
pub open spec fn attributes_text(attributes: Seq<AttributeView>, separator: Seq<char>) -> Seq<char>
    decreases attributes.len(),
{
    if attributes.len() == 0 {
        Seq::empty()
    } else {
        attributes_text(attributes.drop_last(), separator) + (separator + render_attribute(
            attributes.last(),
        ))
    }
}

/// What stands before each attribute of a start tag at `depth`: a space
/// where the attributes stay on the tag's line, else a line break and the
/// indentation of the next level.
pub open spec fn separator(
    attributes: Seq<AttributeView>,
    style: IndentStyle,
    max_line_length: int,
    depth: int,
) -> Seq<char> {
    if exceeds(attributes, max_line_length) {
        seq!['\n'] + style.indentation(depth + 1)
    } else {
        seq![' ']
    }
}

/// Attributes joined by a character, each behind a prefix, and that
/// character before them, are the attributes behind their separators.
pub proof fn lemma_joined_is_attributes_text(attributes: Seq<AttributeView>, c: char, prefix: Seq<char>)
    requires
        attributes.len() > 0,
    ensures
        seq![c] + join(attribute_renderings(attributes, prefix), seq![c]) == attributes_text(
            attributes,
            seq![c] + prefix,
        ),
    decreases attributes.len(),
{
    let parts = attribute_renderings(attributes, prefix);
    let first = attributes.drop_last();
    assert(parts.drop_last() =~= attribute_renderings(first, prefix));
    if attributes.len() == 1 {
        assert(attributes_text(first, seq![c] + prefix) =~= Seq::<char>::empty());
        assert(seq![c] + join(parts, seq![c]) =~= attributes_text(attributes, seq![c] + prefix));
    } else {
        lemma_joined_is_attributes_text(first, c, prefix);
        assert(seq![c] + join(parts, seq![c]) =~= (seq![c] + join(parts.drop_last(), seq![c])) + (
        seq![c] + prefix + render_attribute(attributes.last())));
    }
}

/// A rendered start tag is `<`, the name, each attribute behind its
/// separator, and what closes the tag.
pub proof fn lemma_rendered_start_tag(
    tag: StartTagView,
    style: IndentStyle,
    max_line_length: int,
    depth: int,
)
    ensures
        render_start_tag(tag, style, max_line_length, depth) == seq!['<'] + (tag.name + (
        attributes_text(
            tag.attributes,
            separator(tag.attributes, style, max_line_length, depth),
        ) + closing(tag))),
{
    let attributes = tag.attributes;
    let between = separator(attributes, style, max_line_length, depth);
    if attributes.len() > 0 {
        if exceeds(attributes, max_line_length) {
            lemma_joined_is_attributes_text(attributes, '\n', style.indentation(depth + 1));
        } else {
            lemma_joined_is_attributes_text(attributes, ' ', Seq::empty());
            assert(seq![' '] + Seq::<char>::empty() =~= seq![' ']);
        }
    }
    assert(render_attributes(attributes, style, max_line_length, depth) == attributes_text(
        attributes,
        between,
    ));
    assert(render_start_tag(tag, style, max_line_length, depth) =~= seq!['<'] + (tag.name + (
    attributes_text(attributes, between) + closing(tag))));
}

/// Attributes, each written as `name="value"` behind the separator, are
/// read onto the open start tag in their order.
pub proof fn lemma_read_attributes(
    m: Machine,
    before: Seq<TokenView>,
    tag: StartTagView,
    separator: Seq<char>,
    attributes: Seq<AttributeView>,
) -> (m2: Machine)
    requires
        m.state == LexerState::TagName || m.state == LexerState::AfterAttributeValueQuoted,
        m.tokens == before.push(TokenView::StartTag(tag)),
        has_at(m.cursor.input, m.cursor.pos as int, attributes_text(attributes, separator)),
        separator.len() > 0,
        is_whitespace_only(separator),
        forall|j: int|
            0 <= j < attributes.len() ==> is_attribute_name((#[trigger] attributes[j]).name)
                && is_quotable(attributes[j].value),
    ensures
        outcome(m2) == outcome(m),
        m2.state == LexerState::TagName || m2.state == LexerState::AfterAttributeValueQuoted,
        stands_at(
            m2,
            m.cursor.input,
            (m.cursor.pos + attributes_text(attributes, separator).len()) as int,
        ),
        m2.tokens == before.push(
            TokenView::StartTag(StartTagView { attributes: tag.attributes + attributes, ..tag }),
        ),
    decreases attributes.len(),
{
    if attributes.len() == 0 {
        assert(tag.attributes + attributes =~= tag.attributes);
        m
    } else {
        let first = attributes.drop_last();
        let last = attributes.last();
        lemma_has_at_split(
            m.cursor.input,
            m.cursor.pos as int,
            attributes_text(first, separator),
            separator + render_attribute(last),
        );
        assert forall|j: int| 0 <= j < first.len() implies is_attribute_name(
            (#[trigger] first[j]).name,
        ) && is_quotable(first[j].value) by {
            assert(first[j] == attributes[j]);
        }
        let m1 = lemma_read_attributes(m, before, tag, separator, first);
        let grown = StartTagView { attributes: tag.attributes + first, ..tag };
        let m2 = lemma_read_attribute(m1, before, grown, separator, last);
        assert((tag.attributes + first).push(last) =~= tag.attributes + attributes);
        m2
    }
}

/// `>`, or `/>`, closes the open start tag and gives it a span.
pub proof fn lemma_close_tag(m: Machine, before: Seq<TokenView>, tag: StartTagView, self_closing: bool)
    -> (m2: Machine)
    requires
        m.state == LexerState::TagName || m.state == LexerState::AfterAttributeValueQuoted,
        m.tokens == before.push(TokenView::StartTag(tag)),
        has_at(
            m.cursor.input,
            m.cursor.pos as int,
            if self_closing {
                seq!['/', '>']
            } else {
                seq!['>']
            },
        ),
    ensures
        outcome(m2) == outcome(m),
        m2.state == LexerState::BeforeData,
        stands_at(
            m2,
            m.cursor.input,
            m.cursor.pos as int + if self_closing {
                2int
            } else {
                1int
            },
        ),
        m2.tokens.len() == before.len() + 1,
        m2.tokens.drop_last() == before,
        m2.tokens.last() matches TokenView::StartTag(closed) && closed.span is Some && closed
            == (StartTagView {
            self_closing: tag.self_closing || self_closing,
            span: closed.span,
            ..tag
        }),
{
    let input = m.cursor.input;
    let pos = m.cursor.pos as int;
    if self_closing {
        let mark = seq!['/', '>'];
        assert(input[pos + 0] == mark[0]);
        assert(input[pos + 1] == mark[1]);
        let m1 = m.step();
        lemma_step(m);
        assert(m1.state == LexerState::SelfClosingStartTag);
        let m2 = m1.step();
        lemma_step(m1);
        assert(m2.tokens.drop_last() =~= before);
        m2
    } else {
        let mark = seq!['>'];
        assert(input[pos + 0] == mark[0]);
        let m1 = m.step();
        lemma_step(m);
        assert(m1.tokens.drop_last() =~= before);
        m1
    }
}

/// A tag name after `<` begins a start tag.
pub proof fn lemma_begin_tag(m: Machine, name: Seq<char>) -> (m2: Machine)
    requires
        m.state == LexerState::TagOpen,
        has_at(m.cursor.input, m.cursor.pos as int, name),
        is_tag_name(name),
    ensures
        outcome(m2) == outcome(m),
        m2.state == LexerState::TagName,
        stands_at(m2, m.cursor.input, (m.cursor.pos + name.len()) as int),
        m2.tokens == m.tokens.push(
            TokenView::StartTag(
                StartTagView { name, attributes: Seq::empty(), self_closing: false, span: None },
            ),
        ),
{
    lemma_has_at_rest(m.cursor.input, m.cursor.pos as int, name);
    let c = name[0];
    let m1 = m.step();
    lemma_step(m);
    let begun = StartTagView {
        name: seq![c],
        attributes: Seq::empty(),
        self_closing: false,
        span: None,
    };
    assert(Seq::<char>::empty().push(c) =~= seq![c]);
    assert(m1.tokens =~= m.tokens.push(TokenView::StartTag(begun)));
    let rest = name.drop_first();
    assert forall|i: int| 0 <= i < rest.len() implies !ends_tag_name(#[trigger] rest[i]) by {
        assert(rest[i] == name[i + 1]);
    }
    let m2 = lemma_read_tag_name(m1, m.tokens, begun, rest);
    assert(seq![c] + rest =~= name);
    m2
}

/// Indentation before a tag is read as character data that the `<` closes.
pub proof fn lemma_read_indentation(m: Machine, indentation: Seq<char>) -> (m2: Machine)
    requires
        m.state == LexerState::BeforeData,
        m.tokens.len() == 0,
        has_at(m.cursor.input, m.cursor.pos as int, indentation + seq!['<']),
        forall|i: int| 0 <= i < indentation.len() ==> #[trigger] indentation[i] != '<',
    ensures
        outcome(m2) == outcome(m),
        m2.state == LexerState::TagOpen,
        stands_at(m2, m.cursor.input, (m.cursor.pos + indentation.len() + 1) as int),
        indentation.len() == 0 ==> m2.tokens.len() == 0,
        indentation.len() > 0 ==> m2.tokens.len() == 1 && (m2.tokens[0] matches TokenView::Chars(
            chars,
        ) && chars.text == indentation),
{
    let input = m.cursor.input;
    let pos = m.cursor.pos as int;
    lemma_has_at_split(input, pos, indentation, seq!['<']);
    assert(input[pos + indentation.len() + 0] == seq!['<'][0]);
    if indentation.len() == 0 {
        let m1 = m.step();
        lemma_step(m);
        m1
    } else {
        assert(input[pos + 0] == indentation[0]);
        let m1 = m.step();
        lemma_step(m);
        let begun = CharsView { text: Seq::empty(), span: None };
        assert(m1.tokens =~= Seq::<TokenView>::empty().push(TokenView::Chars(begun)));
        let m2 = lemma_read_chars(m1, Seq::empty(), begun, indentation);
        assert(begun.text + indentation =~= indentation);
        let m3 = m2.step();
        lemma_step(m2);
        m3
    }
}

/// A line break at the very end is read as character data that stays open.
pub proof fn lemma_read_final_line_break(m: Machine) -> (m2: Machine)
    requires
        m.state == LexerState::BeforeData,
        has_at(m.cursor.input, m.cursor.pos as int, seq!['\n']),
        m.cursor.pos + 1 == m.cursor.input.len(),
    ensures
        outcome(m) == m2,
        m2.cursor.at_end(),
        !m2.stalled(),
        m2.tokens == m.tokens.push(
            TokenView::Chars(CharsView { text: seq!['\n'], span: None }),
        ),
{
    let input = m.cursor.input;
    let pos = m.cursor.pos as int;
    assert(input[pos + 0] == seq!['\n'][0]);
    let m1 = m.step();
    lemma_step(m);
    let m2 = m1.step();
    lemma_step(m1);
    assert(Seq::<char>::empty().push('\n') =~= seq!['\n']);
    assert(m2.tokens =~= m.tokens.push(
        TokenView::Chars(CharsView { text: seq!['\n'], span: None }),
    ));
    lemma_ended(m2);
    m2
}

/// The line of a start tag is its indentation, `<`, the name, each
/// attribute behind its separator, what closes the tag, and a line break.
pub proof fn lemma_line_of_start_tag(
    tag: StartTagView,
    style: IndentStyle,
    max_line_length: int,
    depth: int,
)
    ensures
        render_line(TokenView::StartTag(tag), style, max_line_length, depth) == (style.indentation(
            depth,
        ) + seq!['<']) + (tag.name + (attributes_text(
            tag.attributes,
            separator(tag.attributes, style, max_line_length, depth),
        ) + (closing(tag) + seq!['\n']))),
        is_whitespace_only(separator(tag.attributes, style, max_line_length, depth)),
        separator(tag.attributes, style, max_line_length, depth).len() > 0,
        forall|i: int|
            0 <= i < style.indentation(depth).len() ==> #[trigger] style.indentation(depth)[i]
                != '<',
{
    lemma_rendered_start_tag(tag, style, max_line_length, depth);
    let line = render_line(TokenView::StartTag(tag), style, max_line_length, depth);
    assert(line =~= (style.indentation(depth) + seq!['<']) + (tag.name + (attributes_text(
        tag.attributes,
        separator(tag.attributes, style, max_line_length, depth),
    ) + (closing(tag) + seq!['\n']))));
    assert(is_whitespace(style.unit()));
}

/// A line made of some indentation, `<`, a tag name, attributes behind
/// their separators, a closing mark and a line break is read as the
/// indentation, a start tag and the line break.
pub proof fn lemma_tokenize_line(
    line: Seq<char>,
    indentation: Seq<char>,
    tag: StartTagView,
    between: Seq<char>,
)
    requires
        line == (indentation + seq!['<']) + (tag.name + (attributes_text(tag.attributes, between)
            + (closing(tag) + seq!['\n']))),
        forall|i: int| 0 <= i < indentation.len() ==> #[trigger] indentation[i] != '<',
        between.len() > 0,
        is_whitespace_only(between),
        survives(tag),
    ensures
        ({
            let outcome = outcome(Machine::start(Cursor::start(line)));
            let at = if indentation.len() > 0 {
                1int
            } else {
                0int
            };
            &&& outcome.cursor.at_end()
            &&& !outcome.stalled()
            &&& outcome.tokens.len() == at + 2
            &&& indentation.len() > 0 ==> (outcome.tokens[0] matches TokenView::Chars(chars)
                && chars.text == indentation)
            &&& outcome.tokens[at] matches TokenView::StartTag(again) && again.name == tag.name
                && again.attributes == tag.attributes && again.self_closing == tag.self_closing
                && again.span is Some
            &&& outcome.tokens[at + 1] == TokenView::Chars(
                CharsView { text: seq!['\n'], span: None },
            )
        }),
{
    let attributes = attributes_text(tag.attributes, between);
    let close = closing(tag);
    let end = seq!['\n'];
    let tail3 = close + end;
    let tail2 = attributes + tail3;
    let tail1 = tag.name + tail2;
    let m0 = Machine::start(Cursor::start(line));
    assert(has_at(line, 0, line));
    lemma_has_at_split(line, 0, indentation + seq!['<'], tail1);
    let m1 = lemma_read_indentation(m0, indentation);
    let p1: int = indentation.len() as int + 1;
    lemma_has_at_split(line, p1, tag.name, tail2);
    let m2 = lemma_begin_tag(m1, tag.name);
    let p2: int = p1 + tag.name.len();
    lemma_has_at_split(line, p2, attributes, tail3);
    let begun = StartTagView {
        name: tag.name,
        attributes: Seq::empty(),
        self_closing: false,
        span: None,
    };
    let m3 = lemma_read_attributes(m2, m1.tokens, begun, between, tag.attributes);
    assert(Seq::<AttributeView>::empty() + tag.attributes =~= tag.attributes);
    let p3: int = p2 + attributes.len();
    lemma_has_at_split(line, p3, close, end);
    let read = StartTagView { attributes: tag.attributes, ..begun };
    assert(m3.tokens == m1.tokens.push(TokenView::StartTag(read)));
    let m4 = lemma_close_tag(m3, m1.tokens, read, tag.self_closing);
    assert(stands_at(m4, line, p3 + close.len()));
    let m5 = lemma_read_final_line_break(m4);
    assert(m4.tokens =~= m1.tokens.push(m4.tokens.last()));
}

/// A start tag that survives is read back from the line that it was
/// formatted to, at any depth, in either indent style and whether or not
/// its attributes were put on lines of their own: the tokens of that line
/// are the indentation as character data, where there is any, then a closed
/// start tag with the same name, the same attributes in the same order and
/// the same self-closing mark, then the line break as character data.
pub proof fn law_attributes_round_trip(
    tag: StartTagView,
    style: IndentStyle,
    max_line_length: int,
    depth: int,
)
    requires
        survives(tag),
    ensures
        ({
            let line = render_line(TokenView::StartTag(tag), style, max_line_length, depth);
            let outcome = tokenize(line);
            let at = if depth > 0 {
                1int
            } else {
                0int
            };
            &&& outcome.cursor.at_end()
            &&& !outcome.stalled()
            &&& outcome.tokens.len() == at + 2
            &&& depth > 0 ==> (outcome.tokens[0] matches TokenView::Chars(chars) && chars.text
                == style.indentation(depth))
            &&& outcome.tokens[at] matches TokenView::StartTag(again) && again.name == tag.name
                && again.attributes == tag.attributes && again.self_closing == tag.self_closing
                && again.span is Some
            &&& outcome.tokens[at + 1] == TokenView::Chars(
                CharsView { text: seq!['\n'], span: None },
            )
        }),
{
    reveal(outcome);
    lemma_line_of_start_tag(tag, style, max_line_length, depth);
    lemma_tokenize_line(
        render_line(TokenView::StartTag(tag), style, max_line_length, depth),
        style.indentation(depth),
        tag,
        separator(tag.attributes, style, max_line_length, depth),
    );
}

/// Whether every value of some attributes can stand between double quotes.
pub open spec fn all_quotable(attributes: Seq<AttributeView>) -> bool {
    forall|j: int| 0 <= j < attributes.len() ==> is_quotable((#[trigger] attributes[j]).value)
}

/// The first attribute whose value holds a double quote.
pub proof fn lemma_first_unquotable(attributes: Seq<AttributeView>, from: int) -> (j: int)
    requires
        0 <= from <= attributes.len(),
        forall|k: int| 0 <= k < from ==> is_quotable((#[trigger] attributes[k]).value),
        !all_quotable(attributes),
    ensures
        0 <= j < attributes.len(),
        !is_quotable(attributes[j].value),
        forall|k: int| 0 <= k < j ==> is_quotable((#[trigger] attributes[k]).value),
    decreases attributes.len() - from,
{
    if from < attributes.len() && !is_quotable(attributes[from].value) {
        from
    } else {
        lemma_first_unquotable(attributes, from + 1)
    }
}

/// The first double quote of a value that holds one.
pub proof fn lemma_first_quote(value: Seq<char>, from: int) -> (i: int)
    requires
        0 <= from <= value.len(),
        forall|k: int| 0 <= k < from ==> #[trigger] value[k] != '"',
        !is_quotable(value),
    ensures
        0 <= i < value.len(),
        value[i] == '"',
        forall|k: int| 0 <= k < i ==> #[trigger] value[k] != '"',
    decreases value.len() - from,
{
    if from < value.len() && value[from] == '"' {
        from
    } else {
        lemma_first_quote(value, from + 1)
    }
}

/// The text of the first `count` attributes begins the text of all.
pub proof fn lemma_attributes_text_begins_with(
    attributes: Seq<AttributeView>,
    between: Seq<char>,
    count: int,
)
    requires
        0 <= count <= attributes.len(),
    ensures
        has_at(
            attributes_text(attributes, between),
            0,
            attributes_text(attributes.take(count), between),
        ),
    decreases attributes.len() - count,
{
    if count == attributes.len() {
        assert(attributes.take(count) =~= attributes);
    } else {
        lemma_attributes_text_begins_with(attributes, between, count + 1);
        assert(attributes.take(count + 1).drop_last() =~= attributes.take(count));
        lemma_has_at_split(
            attributes_text(attributes, between),
            0,
            attributes_text(attributes.take(count), between),
            between + render_attribute(attributes[count]),
        );
    }
}

/// What stands at the beginning of a text that stands in the input stands
/// in the input too.
pub proof fn lemma_has_at_beginning(input: Seq<char>, pos: int, text: Seq<char>, part: Seq<char>)
    requires
        has_at(input, pos, text),
        has_at(text, 0, part),
    ensures
        has_at(input, pos, part),
{
    assert forall|i: int| 0 <= i < part.len() implies input[pos + i] == #[trigger] part[i] by {
        assert(text[0 + i] == part[i]);
        assert(input[pos + i] == text[i]);
    }
}

/// An attribute that has been read onto a start tag stays as it is.
pub proof fn lemma_attribute_stays(m: Machine, at: int, j: int, attribute: AttributeView)
    requires
        0 <= at < m.tokens.len(),
        m.tokens[at] matches TokenView::StartTag(tag) && 0 <= j < tag.attributes.len()
            && tag.attributes[j] == attribute,
    ensures
        at < m.run().tokens.len(),
        m.run().tokens[at] matches TokenView::StartTag(tag) && 0 <= j < tag.attributes.len()
            && tag.attributes[j] == attribute,
    decreases m.remaining(), m.rank(),
{
    if m.cursor.at_end() || m.stalled() {
    } else {
        m.lemma_step_makes_progress();
        lemma_attribute_stays(m.step(), at, j, attribute);
    }
}

/// An attribute whose written value holds a double quote is read with the
/// value cut off before that quote.
pub proof fn lemma_read_cut_attribute(
    m: Machine,
    before: Seq<TokenView>,
    tag: StartTagView,
    between: Seq<char>,
    attribute: AttributeView,
    cut: int,
) -> (m2: Machine)
    requires
        m.state == LexerState::TagName || m.state == LexerState::AfterAttributeValueQuoted,
        m.tokens == before.push(TokenView::StartTag(tag)),
        has_at(m.cursor.input, m.cursor.pos as int, between + render_attribute(attribute)),
        between.len() > 0,
        is_whitespace_only(between),
        is_attribute_name(attribute.name),
        0 <= cut < attribute.value.len(),
        attribute.value[cut] == '"',
        forall|k: int| 0 <= k < cut ==> #[trigger] attribute.value[k] != '"',
    ensures
        outcome(m2) == outcome(m),
        m2.tokens.len() == before.len() + 1,
        m2.tokens[before.len() as int] matches TokenView::StartTag(read) && read.attributes
            == tag.attributes.push(
            AttributeView { name: attribute.name, value: attribute.value.take(cut) },
        ),
{
    let input = m.cursor.input;
    let p0 = m.cursor.pos as int;
    let name = attribute.name;
    let value = attribute.value;
    let kept = value.take(cut);
    let tail3 = seq!['"'];
    let tail2 = value + tail3;
    let tail1 = seq!['=', '"'] + tail2;
    assert(render_attribute(attribute) =~= name + tail1);
    lemma_has_at_split(input, p0, between, name + tail1);
    let a1 = lemma_read_separator(m, between);
    let p1 = p0 + between.len();
    lemma_has_at_split(input, p1, name, tail1);
    lemma_has_at_rest(input, p1, name);
    let a2 = lemma_begin_attribute_name(a1, name[0]);
    let first = AttributeView { name: seq![name[0]], value: Seq::empty() };
    let a3 = lemma_read_attribute_name(a2, first, name.drop_first());
    assert(first.name + name.drop_first() =~= name);
    let named = AttributeView { name, value: Seq::empty() };
    let p2 = p1 + name.len();
    lemma_has_at_split(input, p2, seq!['=', '"'], tail2);
    let a4 = lemma_open_value(a3, named);
    let p3 = p2 + 2;
    lemma_has_at_split(input, p3, value, tail3);
    assert forall|k: int| 0 <= k < kept.len() implies input[p3 + k] == #[trigger] kept[k] by {
        assert(value[k] == kept[k]);
    }
    assert(is_quotable(kept)) by {
        assert forall|k: int| 0 <= k < kept.len() implies #[trigger] kept[k] != '"' by {
            assert(value[k] == kept[k]);
        }
    }
    let a5 = lemma_read_quoted_value(a4, named, kept);
    assert(named.value + kept =~= kept);
    assert(input[p3 + cut] == value[cut]);
    let a6 = lemma_close_value(a5, before, tag, AttributeView { name, value: kept });
    a6
}

/// Whether the line that `tag` is formatted to at `depth` is read back as
/// a start tag with the name, the attributes and the self-closing mark of
/// `tag`.
pub open spec fn reads_back(
    tag: StartTagView,
    style: IndentStyle,
    max_line_length: int,
    depth: int,
) -> bool {
    let outcome = tokenize(render_line(TokenView::StartTag(tag), style, max_line_length, depth));
    let at = if depth > 0 {
        1int
    } else {
        0int
    };
    &&& at < outcome.tokens.len()
    &&& outcome.tokens[at] matches TokenView::StartTag(again) && again.name == tag.name
        && again.attributes == tag.attributes && again.self_closing == tag.self_closing
}

/// A start tag with a double quote in a value is not read back: the value
/// comes back cut off before the quote.
proof fn lemma_cut_is_not_read_back(
    tag: StartTagView,
    style: IndentStyle,
    max_line_length: int,
    depth: int,
)
    requires
        is_well_formed(TokenView::StartTag(tag)),
        !all_quotable(tag.attributes),
    ensures
        !reads_back(tag, style, max_line_length, depth),
{
    let attributes = tag.attributes;
    let j = lemma_first_unquotable(attributes, 0);
    let broken = attributes[j];
    let cut = lemma_first_quote(broken.value, 0);
    let line = render_line(TokenView::StartTag(tag), style, max_line_length, depth);
    let indentation = style.indentation(depth);
    let between = separator(attributes, style, max_line_length, depth);
    lemma_line_of_start_tag(tag, style, max_line_length, depth);
    let written = attributes_text(attributes, between);
    let tail2 = written + (closing(tag) + seq!['\n']);
    let tail1 = tag.name + tail2;
    assert(has_at(line, 0, line));
    lemma_has_at_split(line, 0, indentation + seq!['<'], tail1);
    let p1: int = indentation.len() as int + 1;
    lemma_has_at_split(line, p1, tag.name, tail2);
    let p2: int = p1 + tag.name.len();
    lemma_has_at_split(line, p2, written, closing(tag) + seq!['\n']);
    let read = attributes.take(j);
    lemma_attributes_text_begins_with(attributes, between, j + 1);
    assert(attributes.take(j + 1).drop_last() =~= read);
    assert(attributes.take(j + 1).last() == broken);
    lemma_has_at_beginning(line, p2, written, attributes_text(attributes.take(j + 1), between));
    lemma_has_at_split(line, p2, attributes_text(read, between), between + render_attribute(broken));
    let m0 = Machine::start(Cursor::start(line));
    let m1 = lemma_read_indentation(m0, indentation);
    let m2 = lemma_begin_tag(m1, tag.name);
    let begun = StartTagView {
        name: tag.name,
        attributes: Seq::empty(),
        self_closing: false,
        span: None,
    };
    assert forall|k: int| 0 <= k < read.len() implies is_attribute_name((#[trigger] read[k]).name)
        && is_quotable(read[k].value) by {
        assert(read[k] == attributes[k]);
    }
    let m3 = lemma_read_attributes(m2, m1.tokens, begun, between, read);
    assert(Seq::<AttributeView>::empty() + read =~= read);
    let so_far = StartTagView { attributes: read, ..begun };
    let m4 = lemma_read_cut_attribute(m3, m1.tokens, so_far, between, broken, cut);
    let kept = AttributeView { name: broken.name, value: broken.value.take(cut) };
    lemma_outcome_is_run(m0);
    lemma_outcome_is_run(m4);
    lemma_attribute_stays(m4, m1.tokens.len() as int, j, kept);
    assert(kept.value.len() == cut);
}

/// A well-formed start tag is read back from the line that it is formatted
/// to exactly when none of its values holds a double quote.
pub proof fn law_round_trip_exactly(
    tag: StartTagView,
    style: IndentStyle,
    max_line_length: int,
    depth: int,
)
    requires
        is_well_formed(TokenView::StartTag(tag)),
    ensures
        reads_back(tag, style, max_line_length, depth) <==> all_quotable(tag.attributes),
{
    if all_quotable(tag.attributes) {
        assert(survives(tag));
        law_attributes_round_trip(tag, style, max_line_length, depth);
    } else {
        lemma_cut_is_not_read_back(tag, style, max_line_length, depth);
    }
}

} // verus!
