//! The tokenizer as a state machine over character sequences.
//!
//! A [`Machine`] is the whole state of a tokenization in progress. Each
//! state of [`LexerState`] has one transition function; [`Machine::step`]
//! dispatches on the state and [`Machine::run`] steps until the input is
//! used up or no further step can make progress.
use vstd::prelude::*;
use crate::input_stream::Cursor;
use crate::models::{
    AttributeView, CharsView, DiagnosticKind, DiagnosticView, EndTagView, SourcePosition,
    SourceSpan, StartTagView, TokenView,
};
use crate::utils::{is_alphabet, is_whitespace};

verus! {

/// The states of the tokenizer.
#[derive(Clone, Copy, PartialEq, Eq, Hash, Debug)]
pub enum LexerState {
    BeforeData,
    Chars,
    TagOpen,
    TagName,
    EndTagOpen,
    EndTagName,
    BeforeAttributeName,
    AttributeName,
    AfterAttributeName,
    BeforeAttributeValue,
    AttributeValueDoubleQuoted,
    AttributeValueSingleQuoted,
    AttributeValueUnquoted,
    AfterAttributeValueQuoted,
    SelfClosingStartTag,
}

/// The whole state of a tokenization in progress.
pub struct Machine {
    pub cursor: Cursor,
    pub state: LexerState,
    /// The tokens begun so far, in document order. Only the last one can
    /// still be open, and it is open exactly while its span is `None`.
    pub tokens: Seq<TokenView>,
    /// Where the token that is closed next began.
    pub start: SourcePosition,
    /// The attribute under construction, if any.
    pub attribute: Option<AttributeView>,
    pub diagnostics: Seq<DiagnosticView>,
}

impl Machine {
    /// The machine before its first step. Spans are counted from line 1,
    /// column 0, wherever the cursor stands.
    pub open spec fn start(cursor: Cursor) -> Machine {
        Machine {
            cursor,
            state: LexerState::BeforeData,
            tokens: Seq::empty(),
            start: SourcePosition { line: 1, column: 0 },
            attribute: None,
            diagnostics: Seq::empty(),
        }
    }

    /// Moves to `state`.
    pub open spec fn transition_to(self, state: LexerState) -> Machine {
        Machine { state, ..self }
    }

    /// Consumes the next character.
    pub open spec fn consume(self) -> Machine {
        Machine { cursor: self.cursor.advance(), ..self }
    }

    /// Begins `token`.
    pub open spec fn push(self, token: TokenView) -> Machine {
        Machine { tokens: self.tokens.push(token), ..self }
    }

    /// Replaces the last token.
    pub open spec fn replace_last(self, token: TokenView) -> Machine {
        Machine { tokens: self.tokens.drop_last().push(token), ..self }
    }

    /// The range from where the current token began to the cursor.
    pub open spec fn current_span(self) -> SourceSpan {
        SourceSpan { start: self.start, end: self.cursor.position() }
    }

    /// Lets the next token begin at the cursor.
    pub open spec fn restart(self) -> Machine {
        Machine { start: self.cursor.position(), ..self }
    }

    /// Records a diagnostic of `kind` at the cursor.
    pub open spec fn report(self, kind: DiagnosticKind) -> Machine {
        Machine {
            diagnostics: self.diagnostics.push(
                DiagnosticView { kind, position: self.cursor.position() },
            ),
            ..self
        }
    }

    /// Begins character data.
    pub open spec fn begin_chars(self) -> Machine {
        self.push(TokenView::Chars(CharsView { text: Seq::empty(), span: None }))
    }

    /// Adds `c` to the open character data.
    pub open spec fn append_to_chars(self, c: char) -> Machine {
        if self.tokens.len() > 0 && self.tokens.last() is Chars {
            let chars = self.tokens.last()->Chars_0;
            self.replace_last(TokenView::Chars(CharsView { text: chars.text.push(c), ..chars }))
        } else {
            self
        }
    }

    /// Closes the open character data with its span; the next token begins
    /// at the cursor.
    pub open spec fn finish_chars(self) -> Machine {
        let next = self.restart();
        if self.tokens.len() > 0 && self.tokens.last() is Chars {
            let chars = self.tokens.last()->Chars_0;
            next.replace_last(
                TokenView::Chars(CharsView { span: Some(self.current_span()), ..chars }),
            )
        } else {
            next
        }
    }

    /// Begins a start tag.
    pub open spec fn begin_start_tag(self) -> Machine {
        self.push(
            TokenView::StartTag(
                StartTagView {
                    name: Seq::empty(),
                    attributes: Seq::empty(),
                    self_closing: false,
                    span: None,
                },
            ),
        )
    }

    /// Begins an end tag.
    pub open spec fn begin_end_tag(self) -> Machine {
        self.push(TokenView::EndTag(EndTagView { name: Seq::empty(), span: None }))
    }

    /// Adds `c` to the name of the open tag.
    pub open spec fn append_to_tag_name(self, c: char) -> Machine {
        if self.tokens.len() > 0 {
            match self.tokens.last() {
                TokenView::StartTag(tag) => self.replace_last(
                    TokenView::StartTag(StartTagView { name: tag.name.push(c), ..tag }),
                ),
                TokenView::EndTag(tag) => self.replace_last(
                    TokenView::EndTag(EndTagView { name: tag.name.push(c), ..tag }),
                ),
                TokenView::Chars(_) => self,
            }
        } else {
            self
        }
    }

    /// Marks the open start tag as self-closing.
    pub open spec fn mark_tag_as_self_closing(self) -> Machine {
        if self.tokens.len() > 0 && self.tokens.last() is StartTag {
            let tag = self.tokens.last()->StartTag_0;
            self.replace_last(TokenView::StartTag(StartTagView { self_closing: true, ..tag }))
        } else {
            self
        }
    }

    /// Closes the open tag with its span; the next token begins at the
    /// cursor.
    pub open spec fn finish_tag(self) -> Machine {
        let next = self.restart();
        if self.tokens.len() > 0 {
            match self.tokens.last() {
                TokenView::StartTag(tag) => next.replace_last(
                    TokenView::StartTag(StartTagView { span: Some(self.current_span()), ..tag }),
                ),
                TokenView::EndTag(tag) => next.replace_last(
                    TokenView::EndTag(EndTagView { span: Some(self.current_span()), ..tag }),
                ),
                TokenView::Chars(_) => next,
            }
        } else {
            next
        }
    }

    /// Begins an attribute with an empty name and an empty value.
    pub open spec fn begin_attribute(self) -> Machine {
        Machine {
            attribute: Some(AttributeView { name: Seq::empty(), value: Seq::empty() }),
            ..self
        }
    }

    /// Adds `c` to the name of the attribute under construction.
    pub open spec fn append_to_attribute_name(self, c: char) -> Machine {
        match self.attribute {
            Some(attribute) => Machine {
                attribute: Some(AttributeView { name: attribute.name.push(c), ..attribute }),
                ..self
            },
            None => self,
        }
    }

    /// Adds `c` to the value of the attribute under construction.
    pub open spec fn append_to_attribute_value(self, c: char) -> Machine {
        match self.attribute {
            Some(attribute) => Machine {
                attribute: Some(AttributeView { value: attribute.value.push(c), ..attribute }),
                ..self
            },
            None => self,
        }
    }

    /// Moves the attribute under construction onto the open start tag. On an
    /// end tag, which has no attributes, nothing happens.
    pub open spec fn finish_attribute_value(self) -> Machine {
        if self.tokens.len() > 0 && self.tokens.last() is StartTag && self.attribute is Some {
            let tag = self.tokens.last()->StartTag_0;
            Machine { attribute: None, ..self }.replace_last(
                TokenView::StartTag(
                    StartTagView {
                        attributes: tag.attributes.push(self.attribute->Some_0),
                        ..tag
                    },
                ),
            )
        } else {
            self
        }
    }

    /// Between tokens: `<` opens a tag, anything else begins character
    /// data and is read as its first character in the next step.
    pub open spec fn read_before_data(self) -> Machine {
        if self.cursor.peek() == '<' {
            self.transition_to(LexerState::TagOpen).consume()
        } else {
            self.transition_to(LexerState::Chars).begin_chars()
        }
    }

    /// In character data: `<` closes it and opens a tag, anything else is
    /// added to it.
    pub open spec fn read_chars(self) -> Machine {
        let c = self.cursor.peek();
        if c == '<' {
            self.finish_chars().transition_to(LexerState::TagOpen).consume()
        } else {
            self.consume().append_to_chars(c)
        }
    }

    /// After `<`: `/` announces an end tag, a letter begins a start tag,
    /// anything else is skipped.
    pub open spec fn read_tag_open(self) -> Machine {
        let c = self.cursor.peek();
        let next = self.consume();
        if c == '/' {
            next.transition_to(LexerState::EndTagOpen)
        } else if is_alphabet(c) {
            next.transition_to(LexerState::TagName).begin_start_tag().append_to_tag_name(c)
        } else {
            next
        }
    }

    /// In a tag name: whitespace leads to the attributes, `/` to the
    /// self-closing mark, `>` closes the tag, anything else is added to the
    /// name.
    pub open spec fn read_tag_name(self) -> Machine {
        let c = self.cursor.peek();
        let next = self.consume();
        if is_whitespace(c) {
            next.transition_to(LexerState::BeforeAttributeName)
        } else if c == '/' {
            next.transition_to(LexerState::SelfClosingStartTag)
        } else if c == '>' {
            next.finish_tag().transition_to(LexerState::BeforeData)
        } else {
            next.append_to_tag_name(c)
        }
    }

    /// After `</`: a letter begins an end tag, anything else is skipped.
    pub open spec fn read_end_tag_open(self) -> Machine {
        let c = self.cursor.peek();
        let next = self.consume();
        if is_alphabet(c) {
            next.transition_to(LexerState::EndTagName).begin_end_tag().append_to_tag_name(c)
        } else {
            next
        }
    }

    /// In the name of an end tag: as in the name of a start tag.
    pub open spec fn read_end_tag_name(self) -> Machine {
        self.read_tag_name()
    }

    /// Where an attribute name may begin: whitespace is skipped, `/` is
    /// left to the self-closing state, `>` closes the tag, whose span ends
    /// before it, `=` is reported and begins a name, anything else begins a
    /// name and is read as its first character in the next step.
    pub open spec fn read_before_attribute_name(self) -> Machine {
        let c = self.cursor.peek();
        if is_whitespace(c) {
            self.consume()
        } else if c == '/' {
            self.transition_to(LexerState::SelfClosingStartTag)
        } else if c == '>' {
            self.finish_tag().consume().transition_to(LexerState::BeforeData)
        } else if c == '=' {
            self.report(DiagnosticKind::AttributeNameStartsWithEquals).transition_to(
                LexerState::AttributeName,
            ).begin_attribute().consume().append_to_attribute_name(c)
        } else {
            self.transition_to(LexerState::AttributeName).begin_attribute()
        }
    }

    /// In an attribute name: whitespace ends the name, `=` leads to the
    /// value, `/` and `>` end the attribute, a quote or `<` is reported and
    /// added to the name, anything else is added to the name.
    pub open spec fn read_attribute_name(self) -> Machine {
        let c = self.cursor.peek();
        if is_whitespace(c) {
            self.transition_to(LexerState::AfterAttributeName).consume()
        } else if c == '/' {
            self.finish_attribute_value().consume().transition_to(LexerState::SelfClosingStartTag)
        } else if c == '=' {
            self.transition_to(LexerState::BeforeAttributeValue).consume()
        } else if c == '>' {
            self.finish_attribute_value().consume().finish_tag().transition_to(
                LexerState::BeforeData,
            )
        } else if c == '"' || c == '\'' || c == '<' {
            self.report(DiagnosticKind::InvalidCharInAttributeName).consume()
                .append_to_attribute_name(c)
        } else {
            self.consume().append_to_attribute_name(c)
        }
    }

    /// After an attribute name: whitespace is skipped, `=` leads to the
    /// value, `/` and `>` end the attribute, anything else ends it and
    /// begins the next one.
    pub open spec fn read_after_attribute_name(self) -> Machine {
        let c = self.cursor.peek();
        if is_whitespace(c) {
            self.consume()
        } else if c == '/' {
            self.finish_attribute_value().consume().transition_to(LexerState::SelfClosingStartTag)
        } else if c == '=' {
            self.transition_to(LexerState::BeforeAttributeValue).consume()
        } else if c == '>' {
            self.finish_attribute_value().consume().finish_tag().transition_to(
                LexerState::BeforeData,
            )
        } else {
            self.finish_attribute_value().transition_to(LexerState::AttributeName)
                .begin_attribute().consume().append_to_attribute_name(c)
        }
    }

    /// Where a value may begin: whitespace is skipped, a quote opens a
    /// quoted value, `>` ends the attribute and closes the tag, anything
    /// else begins an unquoted value.
    pub open spec fn read_before_attribute_value(self) -> Machine {
        let c = self.cursor.peek();
        if is_whitespace(c) {
            self.consume()
        } else if c == '"' {
            self.transition_to(LexerState::AttributeValueDoubleQuoted).consume()
        } else if c == '\'' {
            self.transition_to(LexerState::AttributeValueSingleQuoted).consume()
        } else if c == '>' {
            self.finish_attribute_value().consume().finish_tag().transition_to(
                LexerState::BeforeData,
            )
        } else {
            self.transition_to(LexerState::AttributeValueUnquoted).consume()
                .append_to_attribute_value(c)
        }
    }

    /// Between double quotes: the closing quote ends the attribute,
    /// anything else is added to the value.
    pub open spec fn read_attribute_value_double_quoted(self) -> Machine {
        let c = self.cursor.peek();
        let next = self.consume();
        if c == '"' {
            next.finish_attribute_value().transition_to(LexerState::AfterAttributeValueQuoted)
        } else {
            next.append_to_attribute_value(c)
        }
    }

    /// Between single quotes: the closing quote ends the attribute,
    /// anything else is added to the value.
    pub open spec fn read_attribute_value_single_quoted(self) -> Machine {
        let c = self.cursor.peek();
        let next = self.consume();
        if c == '\'' {
            next.finish_attribute_value().transition_to(LexerState::AfterAttributeValueQuoted)
        } else {
            next.append_to_attribute_value(c)
        }
    }

    /// A `/` ends an unquoted value only when `>` follows it directly;
    /// otherwise it belongs to the value.
    pub open spec fn read_attribute_value_unquoted(self) -> Machine {
        let c = self.cursor.peek();
        if is_whitespace(c) {
            self.finish_attribute_value().consume().transition_to(
                LexerState::BeforeAttributeName,
            )
        } else if c == '/' {
            let next = self.consume();
            if !next.cursor.at_end() && next.cursor.peek() == '>' {
                next.finish_attribute_value().transition_to(LexerState::SelfClosingStartTag)
            } else {
                next.append_to_attribute_value(c)
            }
        } else if c == '>' {
            self.finish_attribute_value().consume().finish_tag().transition_to(
                LexerState::BeforeData,
            )
        } else {
            self.consume().append_to_attribute_value(c)
        }
    }

    /// After a closing quote: whitespace leads to the next attribute, `/`
    /// to the self-closing mark, `>` closes the tag, anything else is left
    /// to begin the next attribute.
    pub open spec fn read_after_attribute_value_quoted(self) -> Machine {
        let c = self.cursor.peek();
        if is_whitespace(c) {
            self.consume().transition_to(LexerState::BeforeAttributeName)
        } else if c == '/' {
            self.consume().transition_to(LexerState::SelfClosingStartTag)
        } else if c == '>' {
            self.consume().finish_tag().transition_to(LexerState::BeforeData)
        } else {
            self.transition_to(LexerState::BeforeAttributeName)
        }
    }

    /// After `/` in a tag: `>` marks the tag as self-closing and closes it,
    /// anything else is left to begin an attribute.
    pub open spec fn read_self_closing_start_tag(self) -> Machine {
        if self.cursor.peek() == '>' {
            self.consume().mark_tag_as_self_closing().finish_tag().transition_to(
                LexerState::BeforeData,
            )
        } else {
            self.transition_to(LexerState::BeforeAttributeName)
        }
    }

    /// One step of the machine: the transition of the current state. At the
    /// end of the input there is nothing to read and nothing changes.
    pub open spec fn step(self) -> Machine {
        if self.cursor.at_end() {
            self
        } else {
            match self.state {
                LexerState::BeforeData => self.read_before_data(),
                LexerState::Chars => self.read_chars(),
                LexerState::TagOpen => self.read_tag_open(),
                LexerState::TagName => self.read_tag_name(),
                LexerState::EndTagOpen => self.read_end_tag_open(),
                LexerState::EndTagName => self.read_end_tag_name(),
                LexerState::BeforeAttributeName => self.read_before_attribute_name(),
                LexerState::AttributeName => self.read_attribute_name(),
                LexerState::AfterAttributeName => self.read_after_attribute_name(),
                LexerState::BeforeAttributeValue => self.read_before_attribute_value(),
                LexerState::AttributeValueDoubleQuoted => self.read_attribute_value_double_quoted(),
                LexerState::AttributeValueSingleQuoted => self.read_attribute_value_single_quoted(),
                LexerState::AttributeValueUnquoted => self.read_attribute_value_unquoted(),
                LexerState::AfterAttributeValueQuoted => self.read_after_attribute_value_quoted(),
                LexerState::SelfClosingStartTag => self.read_self_closing_start_tag(),
            }
        }
    }

    /// A `/` met before an attribute name is handed to the self-closing
    /// state without being consumed, and that state hands anything but `>`
    /// back, again without consuming: from here the machine would pass the
    /// same `/` back and forth for ever.
    pub open spec fn stalled(self) -> bool {
        &&& !self.cursor.at_end()
        &&& self.cursor.peek() == '/'
        &&& (self.state == LexerState::BeforeAttributeName || self.state
            == LexerState::SelfClosingStartTag)
    }

    /// The number of characters not yet consumed.
    pub open spec fn remaining(self) -> nat {
        if self.cursor.at_end() {
            0
        } else {
            (self.cursor.input.len() - self.cursor.pos) as nat
        }
    }

    /// A bound on the steps that the machine can take from this state
    /// without consuming a character.
    pub open spec fn rank(self) -> nat {
        match self.state {
            LexerState::AfterAttributeValueQuoted | LexerState::SelfClosingStartTag => 2,
            LexerState::BeforeData | LexerState::BeforeAttributeName => 1,
            _ => 0,
        }
    }

    /// A step that does not stall consumes a character or moves to a state
    /// of lower rank.
    pub proof fn lemma_step_makes_progress(self)
        requires
            !self.cursor.at_end(),
            !self.stalled(),
        ensures
            self.step().remaining() < self.remaining() || (self.step().remaining()
                == self.remaining() && self.step().rank() < self.rank()),
            self.step().cursor.input == self.cursor.input,
    {
    }

    /// The machine after as many steps as it can take: it stops at the end
    /// of the input, or where it has stalled.
    pub open spec fn run(self) -> Machine
        decreases self.remaining(), self.rank(),
    {
        if self.cursor.at_end() || self.stalled() {
            self
        } else {
            proof {
                self.lemma_step_makes_progress();
            }
            self.step().run()
        }
    }
}

/// The outcome of tokenizing a whole document.
pub open spec fn tokenize(input: Seq<char>) -> Machine {
    Machine::start(Cursor::start(input)).run()
}

} // verus!
