//! Formats whole documents: text in, text out.
use vstd::prelude::*;
use crate::config::Config;
use crate::formatter::Formatter;
use crate::input_stream::InputStream;
use crate::layout::{depths_fit, render_tokens};
use crate::lexer::{Lexer, LexerError};
use crate::machine::tokenize;
use crate::models::{diagnostics_view, Diagnostic, DiagnosticView, IndentStyle, LocationPos};

verus! {

/// Why a document could not be formatted.
#[derive(Clone, Copy, PartialEq, Eq, Debug)]
pub enum FormatError {
    /// The document has too many characters for its positions to be counted.
    InputTooLong,
    /// The tokenizer met a `/` where an attribute name may begin.
    Stalled { position: LocationPos },
    /// The nesting depth left the range of its counter.
    DepthOverflow,
}

/// A formatted document in its mathematical form.
pub struct FormattedView {
    pub text: Seq<char>,
    pub diagnostics: Seq<DiagnosticView>,
}

/// A formatted document: its text, and what the tokenizer had to report
/// about the markup it was made from.
#[derive(Clone, PartialEq, Eq, Debug)]
pub struct Formatted {
    pub text: String,
    pub diagnostics: Vec<Diagnostic>,
}

impl View for Formatted {
    type V = FormattedView;

    open spec fn view(&self) -> FormattedView {
        FormattedView { text: self.text@, diagnostics: diagnostics_view(self.diagnostics@) }
    }
}

/// The formatted form of a document, or why there is none.
pub open spec fn format_document(input: Seq<char>, style: IndentStyle, max_line_length: int)
    -> Result<FormattedView, FormatError> {
    let outcome = tokenize(input);
    if input.len() >= usize::MAX {
        Err(FormatError::InputTooLong)
    } else if outcome.stalled() {
        Err(
            FormatError::Stalled {
                position: LocationPos {
                    line: outcome.cursor.line as usize,
                    column: outcome.cursor.col as usize,
                },
            },
        )
    } else if !depths_fit(outcome.tokens, 0) {
        Err(FormatError::DepthOverflow)
    } else {
        Ok(
            FormattedView {
                text: render_tokens(outcome.tokens, style, max_line_length, 0),
                diagnostics: outcome.diagnostics,
            },
        )
    }
}

/// Whether `outcome` is the outcome `expected` of formatting.
pub open spec fn is_outcome(outcome: Result<Formatted, FormatError>, expected: Result<
    FormattedView,
    FormatError,
>) -> bool {
    match outcome {
        Ok(formatted) => expected == Ok::<FormattedView, FormatError>(formatted@),
        Err(e) => expected == Err::<FormattedView, FormatError>(e),
    }
}

/// Formats documents with the options of one configuration.
pub struct Walker {
    config: Config,
}

impl Walker {
    /// The configuration of this walker.
    pub closed spec fn config(&self) -> Config {
        self.config
    }

    /// The outcome of formatting `input` with this walker's options.
    pub open spec fn outcome(&self, input: Seq<char>) -> Result<FormattedView, FormatError> {
        format_document(input, self.config().indent_style, self.config().max_line_length as int)
    }

    /// A walker with the options of `config`.
    pub fn new(config: Config) -> (walker: Self)
        ensures
            walker.config() == config,
    {
        Walker { config }
    }

    /// The files that this walker was asked to format.
    pub fn files(&self) -> (files: &Vec<String>)
        ensures
            *files == self.config().files,
    {
        &self.config.files
    }

    /// Formats the documents in order and stops at the first that fails,
    /// which it names by its index.
    pub fn run(&self, documents: &Vec<String>) -> (r: Result<Vec<Formatted>, (usize, FormatError)>)
        ensures
            match r {
                Ok(texts) => texts@.len() == documents@.len() && forall|i: int|
                    #![trigger documents@[i]]
                    0 <= i < documents@.len() ==> self.outcome(documents@[i]@) == Ok::<
                        FormattedView,
                        FormatError,
                    >(texts@[i]@),
                Err((at, e)) => at < documents@.len() && self.outcome(documents@[at as int]@)
                    == Err::<FormattedView, FormatError>(e) && forall|i: int|
                    #![trigger documents@[i]]
                    0 <= i < at ==> self.outcome(documents@[i]@) is Ok,
            },
    {
        let mut texts: Vec<Formatted> = Vec::new();
        let mut i: usize = 0;
        while i < documents.len()
            invariant
                i <= documents.len(),
                texts@.len() == i,
                forall|j: int|
                    #![trigger documents@[j]]
                    0 <= j < i ==> self.outcome(documents@[j]@) == Ok::<
                        FormattedView,
                        FormatError,
                    >(texts@[j]@),
            decreases documents.len() - i,
        {
            match self.format_file(documents[i].as_str()) {
                Ok(text) => {
                    texts.push(text);
                },
                Err(e) => {
                    return Err((i, e));
                },
            }
            i += 1;
        }
        Ok(texts)
    }

    /// Formats the text of one file.
    pub fn format_file(&self, content: &str) -> (r: Result<Formatted, FormatError>)
        ensures
            is_outcome(r, self.outcome(content@)),
    {
        let stream = match InputStream::try_new(content) {
            Some(stream) => stream,
            None => {
                return Err(FormatError::InputTooLong);
            },
        };
        let mut lexer = Lexer::new(stream);
        match lexer.tokenize() {
            Ok(_) => {},
            Err(LexerError::Stalled { position }) => {
                return Err(FormatError::Stalled { position });
            },
        }
        let (tokens, diagnostics) = lexer.into_parts();
        let mut formatter = Formatter::new(tokens, &self.config);
        if !formatter.can_format() {
            return Err(FormatError::DepthOverflow);
        }
        Ok(Formatted { text: formatter.format(), diagnostics })
    }
}

} // verus!
