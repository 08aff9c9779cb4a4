//! The tokenizer: turns the characters of a document into tokens.
use vstd::prelude::*;
use vstd::pervasive::unreached;
use crate::input_stream::InputStream;
use crate::machine::{LexerState, Machine};
use crate::models::{
    diagnostics_view, tokens_view, AttributeView, Chars, Diagnostic, DiagnosticKind, EndTag,
    LexerToken, Location, LocationPos, SourcePosition, StartTag, TagAttribute, Token,
};
use crate::utils::{is_alphabet, is_whitespace};

verus! {

/// Why tokenization stopped before the end of the input.
#[derive(Clone, Copy, PartialEq, Eq, Debug)]
pub enum LexerError {
    /// The tokenizer met a `/` where an attribute name may begin; no step
    /// from there consumes it.
    Stalled { position: LocationPos },
}

/// The tokenizer over an input stream. Its state is a [`Machine`].
pub struct Lexer<'a> {
    input_stream: InputStream<'a>,
    state: LexerState,
    tokens: Vec<LexerToken>,
    start_line: usize,
    start_col: usize,
    current_attribute: Option<TagAttribute>,
    diagnostics: Vec<Diagnostic>,
}

/// The attribute under construction in its mathematical form.
pub open spec fn attribute_view(attribute: Option<TagAttribute>) -> Option<AttributeView> {
    match attribute {
        Some(a) => Some(a@),
        None => None,
    }
}

impl<'a> View for Lexer<'a> {
    type V = Machine;

    closed spec fn view(&self) -> Machine {
        Machine {
            cursor: self.input_stream@,
            state: self.state,
            tokens: tokens_view(self.tokens@),
            start: SourcePosition { line: self.start_line as nat, column: self.start_col as nat },
            attribute: attribute_view(self.current_attribute),
            diagnostics: diagnostics_view(self.diagnostics@),
        }
    }
}

impl<'a> Lexer<'a> {
    /// A tokenizer that has not read anything of `input_stream` yet.
    pub fn new(input_stream: InputStream<'a>) -> (lexer: Self)
        ensures
            lexer@ == Machine::start(input_stream@),
    {
        let lexer = Self {
            input_stream,
            state: LexerState::BeforeData,
            tokens: Vec::new(),
            start_col: 0,
            start_line: 1,
            current_attribute: None,
            diagnostics: Vec::new(),
        };
        assert(lexer@.tokens =~= Seq::empty());
        assert(lexer@.diagnostics =~= Seq::empty());
        lexer
    }

    /// Steps through the input until it is used up and returns the tokens
    /// begun on the way, or fails where no step can make progress.
    pub fn tokenize(&mut self) -> (r: Result<&Vec<LexerToken>, LexerError>)
        ensures
            final(self)@ == old(self)@.run(),
            match r {
                Ok(tokens) => !final(self)@.stalled() && tokens_view(tokens@) == final(self)@.tokens,
                Err(e) => final(self)@.stalled() && e == (LexerError::Stalled {
                    position: LocationPos {
                        line: final(self)@.cursor.line as usize,
                        column: final(self)@.cursor.col as usize,
                    },
                }),
            },
    {
        while !self.input_stream.eof() && !self.stalled()
            invariant
                self@.run() == old(self)@.run(),
            decreases self@.remaining(), self@.rank(),
        {
            proof {
                self@.lemma_step_makes_progress();
            }
            self.read_next();
        }
        if self.input_stream.eof() {
            Ok(&self.tokens)
        } else {
            Err(
                LexerError::Stalled {
                    position: LocationPos {
                        line: self.input_stream.line(),
                        column: self.input_stream.col(),
                    },
                },
            )
        }
    }

    /// The tokens begun so far.
    pub fn tokens(&self) -> (tokens: &Vec<LexerToken>)
        ensures
            tokens_view(tokens@) == self@.tokens,
    {
        &self.tokens
    }

    /// Hands the tokens over.
    pub fn into_tokens(self) -> (tokens: Vec<LexerToken>)
        ensures
            tokens_view(tokens@) == self@.tokens,
    {
        self.tokens
    }

    /// Hands the tokens and the diagnostics over.
    pub fn into_parts(self) -> (parts: (Vec<LexerToken>, Vec<Diagnostic>))
        ensures
            tokens_view(parts.0@) == self@.tokens,
            diagnostics_view(parts.1@) == self@.diagnostics,
    {
        (self.tokens, self.diagnostics)
    }

    /// The diagnostics reported so far.
    pub fn diagnostics(&self) -> (diagnostics: &Vec<Diagnostic>)
        ensures
            diagnostics_view(diagnostics@) == self@.diagnostics,
    {
        &self.diagnostics
    }

    /// Whether the tokenizer stands where no step can make progress.
    pub fn stalled(&self) -> (r: bool)
        ensures
            r == self@.stalled(),
    {
        match self.input_stream.peek() {
            Ok(c) => c == '/' && match self.state {
                LexerState::BeforeAttributeName | LexerState::SelfClosingStartTag => true,
                _ => false,
            },
            Err(_) => false,
        }
    }

    fn read_next(&mut self)
        ensures
            final(self)@ == old(self)@.step(),
    {
        if self.input_stream.eof() {
        } else {
            match self.state {
                LexerState::BeforeData => self.read_before_data(),
                LexerState::Chars => self.read_chars(),
                LexerState::TagOpen => self.read_tag_open(),
                LexerState::TagName => self.read_tag_name(),
                LexerState::EndTagOpen => self.read_end_tag_open(),
                LexerState::EndTagName => self.read_end_tag_name(),
                LexerState::BeforeAttributeName => self.read_before_attribute_name(),
                LexerState::AttributeName => self.read_attribute_name(),
                LexerState::AfterAttributeName => self.read_after_attribute_name(),
                LexerState::BeforeAttributeValue => self.read_before_attribute_value(),
                LexerState::AttributeValueDoubleQuoted => self.read_attribute_value_double_quoted(),
                LexerState::AttributeValueSingleQuoted => self.read_attribute_value_single_quoted(),
                LexerState::AttributeValueUnquoted => self.read_attribute_value_unquoted(),
                LexerState::AfterAttributeValueQuoted => self.read_after_attribute_value_quoted(),
                LexerState::SelfClosingStartTag => self.read_self_closing_start_tag(),
            };
        }
    }

    fn transition_to(&mut self, state: LexerState)
        ensures
            final(self)@ == old(self)@.transition_to(state),
    {
        self.state = state;
    }

    fn peek(&self) -> (c: char)
        requires
            !self@.cursor.at_end(),
        ensures
            c == self@.cursor.peek(),
    {
        match self.input_stream.peek() {
            Ok(c) => c,
            Err(_) => unreached(),
        }
    }

    fn consume(&mut self) -> (c: char)
        requires
            !old(self)@.cursor.at_end(),
        ensures
            c == old(self)@.cursor.peek(),
            final(self)@ == old(self)@.consume(),
    {
        match self.input_stream.next() {
            Ok(c) => c,
            Err(_) => unreached(),
        }
    }

    /// Consumes characters for as long as `predicate` accepts the next
    /// one, and returns them.
    #[allow(dead_code)]
    fn read_while<F: Fn(char) -> bool>(&mut self, predicate: F) -> (text: String)
        requires
            forall|c: char| predicate.requires((c,)),
        ensures
            final(self)@ == (Machine {
                cursor: old(self)@.cursor.advance_by(text@.len()),
                ..old(self)@
            }),
            final(self)@.cursor.pos == old(self)@.cursor.pos + text@.len(),
            forall|i: int|
                0 <= i < text@.len() ==> old(self)@.cursor.input[old(self)@.cursor.pos + i]
                    == #[trigger] text@[i] && predicate.ensures((text@[i],), true),
            final(self)@.cursor.at_end() || predicate.ensures(
                (final(self)@.cursor.peek(),),
                false,
            ),
    {
        let mut text = String::new();
        loop
            invariant
                forall|c: char| predicate.requires((c,)),
                self@ == (Machine {
                    cursor: old(self)@.cursor.advance_by(text@.len()),
                    ..old(self)@
                }),
                self@.cursor.input == old(self)@.cursor.input,
                self@.cursor.pos == old(self)@.cursor.pos + text@.len(),
                forall|i: int|
                    0 <= i < text@.len() ==> old(self)@.cursor.input[old(self)@.cursor.pos + i]
                        == #[trigger] text@[i] && predicate.ensures((text@[i],), true),
            ensures
                self@.cursor.at_end() || predicate.ensures((self@.cursor.peek(),), false),
            decreases self@.remaining(),
        {
            if self.input_stream.eof() {
                break ;
            }
            let next = self.peek();
            if !predicate(next) {
                break ;
            }
            let ghost before = text@;
            self.consume();
            text.push(next);
            assert(old(self)@.cursor.advance_by(text@.len()) == old(self)@.cursor.advance_by(
                before.len(),
            ).advance());
        }
        text
    }

    fn push(&mut self, token: LexerToken)
        ensures
            final(self)@ == old(self)@.push(token@),
    {
        self.tokens.push(token);
        assert(tokens_view(self.tokens@) =~= tokens_view(old(self).tokens@).push(token@));
    }

    /// Puts `token` in the place of the last token, which was taken out.
    fn put_back(&mut self, token: LexerToken, Ghost(before): Ghost<Machine>)
        requires
            before.tokens.len() > 0,
            old(self)@ == (Machine { tokens: before.tokens.drop_last(), ..before }),
        ensures
            final(self)@ == before.replace_last(token@),
    {
        self.tokens.push(token);
        assert(tokens_view(self.tokens@) =~= tokens_view(old(self).tokens@).push(token@));
    }

    /// Takes the last token out, if there is one.
    fn take_last(&mut self) -> (token: Option<LexerToken>)
        ensures
            old(self)@.tokens.len() == 0 ==> token is None && final(self)@ == old(self)@,
            old(self)@.tokens.len() > 0 ==> token is Some && token->Some_0@ == old(self)@.tokens.last()
                && final(self)@ == (Machine {
                tokens: old(self)@.tokens.drop_last(),
                ..old(self)@
            }),
    {
        let token = self.tokens.pop();
        assert(old(self).tokens@.len() > 0 ==> tokens_view(self.tokens@) =~= tokens_view(
            old(self).tokens@,
        ).drop_last());
        token
    }

    fn retrieve_loc_info(&mut self) -> (loc: Location)
        ensures
            loc@ == old(self)@.current_span(),
            final(self)@ == old(self)@.restart(),
    {
        let loc = Location {
            start: LocationPos { line: self.start_line, column: self.start_col },
            end: LocationPos { line: self.input_stream.line(), column: self.input_stream.col() },
        };
        self.start_line = self.input_stream.line();
        self.start_col = self.input_stream.col();
        loc
    }

    fn report(&mut self, kind: DiagnosticKind)
        ensures
            final(self)@ == old(self)@.report(kind),
    {
        let diagnostic = Diagnostic {
            kind,
            position: LocationPos {
                line: self.input_stream.line(),
                column: self.input_stream.col(),
            },
        };
        self.diagnostics.push(diagnostic);
        assert(diagnostics_view(self.diagnostics@) =~= diagnostics_view(old(self).diagnostics@).push(
            diagnostic@,
        ));
    }

    fn begin_chars(&mut self)
        ensures
            final(self)@ == old(self)@.begin_chars(),
    {
        self.push(LexerToken::Chars(Chars { data: String::new(), loc: None }));
    }

    fn append_to_chars(&mut self, char: char)
        ensures
            final(self)@ == old(self)@.append_to_chars(char),
    {
        let ghost before = self@;
        match self.take_last() {
            Some(LexerToken::Chars(mut chars)) => {
                chars.append_to_chars(char);
                self.put_back(LexerToken::Chars(chars), Ghost(before));
            },
            Some(token) => {
                self.put_back(token, Ghost(before));
                assert(before.tokens.drop_last().push(before.tokens.last()) =~= before.tokens);
            },
            None => {},
        }
    }

    fn finish_chars(&mut self)
        ensures
            final(self)@ == old(self)@.finish_chars(),
    {
        let loc = self.retrieve_loc_info();
        let ghost before = self@;
        match self.take_last() {
            Some(LexerToken::Chars(mut chars)) => {
                chars.add_loc(loc);
                self.put_back(LexerToken::Chars(chars), Ghost(before));
            },
            Some(token) => {
                self.put_back(token, Ghost(before));
                assert(before.tokens.drop_last().push(before.tokens.last()) =~= before.tokens);
            },
            None => {},
        }
    }

    fn begin_start_tag(&mut self)
        ensures
            final(self)@ == old(self)@.begin_start_tag(),
    {
        let tag = StartTag {
            tag_name: String::new(),
            attributes: Vec::new(),
            self_closing: false,
            loc: None,
        };
        assert(tag@.attributes =~= Seq::empty());
        self.push(LexerToken::StartTag(tag))
    }

    fn begin_end_tag(&mut self)
        ensures
            final(self)@ == old(self)@.begin_end_tag(),
    {
        self.push(LexerToken::EndTag(EndTag { tag_name: String::new(), loc: None }))
    }

    fn append_to_tag_name(&mut self, char: char)
        ensures
            final(self)@ == old(self)@.append_to_tag_name(char),
    {
        let ghost before = self@;
        match self.take_last() {
            Some(LexerToken::StartTag(mut tag)) => {
                tag.append_to_tag_name(char);
                self.put_back(LexerToken::StartTag(tag), Ghost(before));
            },
            Some(LexerToken::EndTag(mut tag)) => {
                tag.append_to_tag_name(char);
                self.put_back(LexerToken::EndTag(tag), Ghost(before));
            },
            Some(token) => {
                self.put_back(token, Ghost(before));
                assert(before.tokens.drop_last().push(before.tokens.last()) =~= before.tokens);
            },
            None => {},
        }
    }

    fn mark_tag_as_self_closing(&mut self)
        ensures
            final(self)@ == old(self)@.mark_tag_as_self_closing(),
    {
        let ghost before = self@;
        match self.take_last() {
            Some(LexerToken::StartTag(mut tag)) => {
                tag.mark_as_self_closing();
                self.put_back(LexerToken::StartTag(tag), Ghost(before));
            },
            Some(token) => {
                self.put_back(token, Ghost(before));
                assert(before.tokens.drop_last().push(before.tokens.last()) =~= before.tokens);
            },
            None => {},
        }
    }

    fn finish_tag(&mut self)
        ensures
            final(self)@ == old(self)@.finish_tag(),
    {
        let loc = self.retrieve_loc_info();
        let ghost before = self@;
        match self.take_last() {
            Some(LexerToken::StartTag(mut tag)) => {
                tag.add_loc(loc);
                self.put_back(LexerToken::StartTag(tag), Ghost(before));
            },
            Some(LexerToken::EndTag(mut tag)) => {
                tag.add_loc(loc);
                self.put_back(LexerToken::EndTag(tag), Ghost(before));
            },
            Some(token) => {
                self.put_back(token, Ghost(before));
                assert(before.tokens.drop_last().push(before.tokens.last()) =~= before.tokens);
            },
            None => {},
        }
    }

    fn begin_attribute(&mut self)
        ensures
            final(self)@ == old(self)@.begin_attribute(),
    {
        self.current_attribute = Some(
            TagAttribute { attribute_name: String::new(), attribute_value: String::new() },
        )
    }

    fn append_to_attribute_name(&mut self, char: char)
        ensures
            final(self)@ == old(self)@.append_to_attribute_name(char),
    {
        match self.current_attribute.take() {
            Some(mut attribute) => {
                attribute.append_to_attribute_name(char);
                self.current_attribute = Some(attribute);
            },
            None => {},
        }
    }

    fn append_to_attribute_value(&mut self, char: char)
        ensures
            final(self)@ == old(self)@.append_to_attribute_value(char),
    {
        match self.current_attribute.take() {
            Some(mut attribute) => {
                attribute.append_to_attribute_value(char);
                self.current_attribute = Some(attribute);
            },
            None => {},
        }
    }

    fn finish_attribute_value(&mut self)
        ensures
            final(self)@ == old(self)@.finish_attribute_value(),
    {
        let ghost before = self@;
        match self.take_last() {
            Some(LexerToken::StartTag(mut tag)) => {
                match self.current_attribute.take() {
                    Some(attribute) => {
                        tag.append_to_attributes(attribute);
                        self.put_back(
                            LexerToken::StartTag(tag),
                            Ghost(Machine { attribute: None, ..before }),
                        );
                    },
                    None => {
                        self.put_back(LexerToken::StartTag(tag), Ghost(before));
                        assert(before.tokens.drop_last().push(before.tokens.last())
                            =~= before.tokens);
                    },
                }
            },
            Some(token) => {
                self.put_back(token, Ghost(before));
                assert(before.tokens.drop_last().push(before.tokens.last()) =~= before.tokens);
            },
            None => {},
        }
    }

    fn read_before_data(&mut self)
        requires
            !old(self)@.cursor.at_end(),
        ensures
            final(self)@ == old(self)@.read_before_data(),
    {
        let char = self.peek();
        if char == '<' {
            self.transition_to(LexerState::TagOpen);
            self.consume();
        } else {
            self.transition_to(LexerState::Chars);
            self.begin_chars();
        }
    }

    fn read_chars(&mut self)
        requires
            !old(self)@.cursor.at_end(),
        ensures
            final(self)@ == old(self)@.read_chars(),
    {
        let char = self.peek();
        if char == '<' {
            self.finish_chars();
            self.transition_to(LexerState::TagOpen);
            self.consume();
        } else {
            self.consume();
            self.append_to_chars(char);
        }
    }

    fn read_tag_open(&mut self)
        requires
            !old(self)@.cursor.at_end(),
        ensures
            final(self)@ == old(self)@.read_tag_open(),
    {
        let char = self.consume();
        if char == '/' {
            self.transition_to(LexerState::EndTagOpen)
        } else if is_alphabet(char) {
            self.transition_to(LexerState::TagName);
            self.begin_start_tag();
            self.append_to_tag_name(char);
        }
    }

    fn read_tag_name(&mut self)
        requires
            !old(self)@.cursor.at_end(),
        ensures
            final(self)@ == old(self)@.read_tag_name(),
    {
        let char = self.consume();
        if is_whitespace(char) {
            self.transition_to(LexerState::BeforeAttributeName);
        } else if char == '/' {
            self.transition_to(LexerState::SelfClosingStartTag);
        } else if char == '>' {
            self.finish_tag();
            self.transition_to(LexerState::BeforeData);
        } else {
            self.append_to_tag_name(char);
        }
    }

    fn read_end_tag_open(&mut self)
        requires
            !old(self)@.cursor.at_end(),
        ensures
            final(self)@ == old(self)@.read_end_tag_open(),
    {
        let char = self.consume();
        if is_alphabet(char) {
            self.transition_to(LexerState::EndTagName);
            self.begin_end_tag();
            self.append_to_tag_name(char);
        }
    }

    fn read_end_tag_name(&mut self)
        requires
            !old(self)@.cursor.at_end(),
        ensures
            final(self)@ == old(self)@.read_end_tag_name(),
    {
        let char = self.consume();
        if is_whitespace(char) {
            self.transition_to(LexerState::BeforeAttributeName);
        } else if char == '/' {
            self.transition_to(LexerState::SelfClosingStartTag);
        } else if char == '>' {
            self.finish_tag();
            self.transition_to(LexerState::BeforeData);
        } else {
            self.append_to_tag_name(char);
        }
    }

    fn read_before_attribute_name(&mut self)
        requires
            !old(self)@.cursor.at_end(),
        ensures
            final(self)@ == old(self)@.read_before_attribute_name(),
    {
        let char = self.peek();
        if is_whitespace(char) {
            self.consume();
        } else if char == '/' {
            self.transition_to(LexerState::SelfClosingStartTag);
        } else if char == '>' {
            self.finish_tag();
            self.consume();
            self.transition_to(LexerState::BeforeData);
        } else if char == '=' {
            self.report(DiagnosticKind::AttributeNameStartsWithEquals);
            self.transition_to(LexerState::AttributeName);
            self.begin_attribute();
            self.consume();
            self.append_to_attribute_name(char);
        } else {
            self.transition_to(LexerState::AttributeName);
            self.begin_attribute();
        }
    }

    fn read_attribute_name(&mut self)
        requires
            !old(self)@.cursor.at_end(),
        ensures
            final(self)@ == old(self)@.read_attribute_name(),
    {
        let char = self.peek();
        if is_whitespace(char) {
            self.transition_to(LexerState::AfterAttributeName);
            self.consume();
        } else if char == '/' {
            self.finish_attribute_value();
            self.consume();
            self.transition_to(LexerState::SelfClosingStartTag);
        } else if char == '=' {
            self.transition_to(LexerState::BeforeAttributeValue);
            self.consume();
        } else if char == '>' {
            self.finish_attribute_value();
            self.consume();
            self.finish_tag();
            self.transition_to(LexerState::BeforeData);
        } else if char == '"' || char == '\'' || char == '<' {
            self.report(DiagnosticKind::InvalidCharInAttributeName);
            self.consume();
            self.append_to_attribute_name(char);
        } else {
            self.consume();
            self.append_to_attribute_name(char);
        }
    }

    fn read_after_attribute_name(&mut self)
        requires
            !old(self)@.cursor.at_end(),
        ensures
            final(self)@ == old(self)@.read_after_attribute_name(),
    {
        let char = self.peek();
        if is_whitespace(char) {
            self.consume();
        } else if char == '/' {
            self.finish_attribute_value();
            self.consume();
            self.transition_to(LexerState::SelfClosingStartTag);
        } else if char == '=' {
            self.transition_to(LexerState::BeforeAttributeValue);
            self.consume();
        } else if char == '>' {
            self.finish_attribute_value();
            self.consume();
            self.finish_tag();
            self.transition_to(LexerState::BeforeData);
        } else {
            // A new attribute begins, as in `<div data-a data-b>`.
            self.finish_attribute_value();
            self.transition_to(LexerState::AttributeName);
            self.begin_attribute();
            self.consume();
            self.append_to_attribute_name(char);
        }
    }

    fn read_before_attribute_value(&mut self)
        requires
            !old(self)@.cursor.at_end(),
        ensures
            final(self)@ == old(self)@.read_before_attribute_value(),
    {
        let char = self.peek();
        if is_whitespace(char) {
            self.consume();
        } else if char == '"' {
            self.transition_to(LexerState::AttributeValueDoubleQuoted);
            self.consume();
        } else if char == '\'' {
            self.transition_to(LexerState::AttributeValueSingleQuoted);
            self.consume();
        } else if char == '>' {
            self.finish_attribute_value();
            self.consume();
            self.finish_tag();
            self.transition_to(LexerState::BeforeData);
        } else {
            self.transition_to(LexerState::AttributeValueUnquoted);
            self.consume();
            self.append_to_attribute_value(char);
        }
    }

    fn read_attribute_value_double_quoted(&mut self)
        requires
            !old(self)@.cursor.at_end(),
        ensures
            final(self)@ == old(self)@.read_attribute_value_double_quoted(),
    {
        let char = self.consume();
        if char == '"' {
            self.finish_attribute_value();
            self.transition_to(LexerState::AfterAttributeValueQuoted);
        } else {
            self.append_to_attribute_value(char);
        }
    }

    fn read_attribute_value_single_quoted(&mut self)
        requires
            !old(self)@.cursor.at_end(),
        ensures
            final(self)@ == old(self)@.read_attribute_value_single_quoted(),
    {
        let char = self.consume();
        if char == '\'' {
            self.finish_attribute_value();
            self.transition_to(LexerState::AfterAttributeValueQuoted);
        } else {
            self.append_to_attribute_value(char);
        }
    }

    fn read_attribute_value_unquoted(&mut self)
        requires
            !old(self)@.cursor.at_end(),
        ensures
            final(self)@ == old(self)@.read_attribute_value_unquoted(),
    {
        let char = self.peek();
        if is_whitespace(char) {
            self.finish_attribute_value();
            self.consume();
            self.transition_to(LexerState::BeforeAttributeName);
        } else if char == '/' {
            self.consume();
            let closes = match self.input_stream.peek() {
                Ok(next_char) => next_char == '>',
                Err(_) => false,
            };
            if closes {
                self.finish_attribute_value();
                self.transition_to(LexerState::SelfClosingStartTag);
            } else {
                // As in `<a href=https://example.com>`.
                self.append_to_attribute_value(char);
            }
        } else if char == '>' {
            self.finish_attribute_value();
            self.consume();
            self.finish_tag();
            self.transition_to(LexerState::BeforeData);
        } else {
            self.consume();
            self.append_to_attribute_value(char);
        }
    }

    fn read_after_attribute_value_quoted(&mut self)
        requires
            !old(self)@.cursor.at_end(),
        ensures
            final(self)@ == old(self)@.read_after_attribute_value_quoted(),
    {
        let char = self.peek();
        if is_whitespace(char) {
            self.consume();
            self.transition_to(LexerState::BeforeAttributeName);
        } else if char == '/' {
            self.consume();
            self.transition_to(LexerState::SelfClosingStartTag);
        } else if char == '>' {
            self.consume();
            self.finish_tag();
            self.transition_to(LexerState::BeforeData);
        } else {
            self.transition_to(LexerState::BeforeAttributeName);
        }
    }

    fn read_self_closing_start_tag(&mut self)
        requires
            !old(self)@.cursor.at_end(),
        ensures
            final(self)@ == old(self)@.read_self_closing_start_tag(),
    {
        let char = self.peek();
        if char == '>' {
            self.consume();
            self.mark_tag_as_self_closing();
            self.finish_tag();
            self.transition_to(LexerState::BeforeData);
        } else {
            self.transition_to(LexerState::BeforeAttributeName);
        }
    }
}

} // verus!
