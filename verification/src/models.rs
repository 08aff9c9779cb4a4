//! The token model shared by the tokenizer and the layout engine.
use vstd::prelude::*;
use crate::utils::str_equals;

verus! {

/// A place in the source text: a 1-based line and a 0-based column.
pub struct SourcePosition {
    pub line: nat,
    pub column: nat,
}

/// The half-open range of source text that a token occupies.
pub struct SourceSpan {
    pub start: SourcePosition,
    pub end: SourcePosition,
}

/// A `name="value"` pair as plain character sequences.
pub struct AttributeView {
    pub name: Seq<char>,
    pub value: Seq<char>,
}

/// A start tag as plain values.
pub struct StartTagView {
    pub name: Seq<char>,
    pub attributes: Seq<AttributeView>,
    pub self_closing: bool,
    pub span: Option<SourceSpan>,
}

/// An end tag as plain values.
pub struct EndTagView {
    pub name: Seq<char>,
    pub span: Option<SourceSpan>,
}

/// A run of character data as plain values.
pub struct CharsView {
    pub text: Seq<char>,
    pub span: Option<SourceSpan>,
}

/// A structural unit of markup in its mathematical form.
pub enum TokenView {
    StartTag(StartTagView),
    EndTag(EndTagView),
    Chars(CharsView),
}

/// A place in the source text: a 1-based line and a 0-based column.
#[derive(Clone, Copy, PartialEq, Eq, Debug)]
pub struct LocationPos {
    pub line: usize,
    pub column: usize,
}

impl View for LocationPos {
    type V = SourcePosition;

    open spec fn view(&self) -> SourcePosition {
        SourcePosition { line: self.line as nat, column: self.column as nat }
    }
}

/// The range of source text that a token occupies.
#[derive(Clone, Copy, PartialEq, Eq, Debug)]
pub struct Location {
    pub start: LocationPos,
    pub end: LocationPos,
}

impl View for Location {
    type V = SourceSpan;

    open spec fn view(&self) -> SourceSpan {
        SourceSpan { start: self.start@, end: self.end@ }
    }
}

/// The span of an optional location.
pub open spec fn span_of(loc: Option<Location>) -> Option<SourceSpan> {
    match loc {
        Some(l) => Some(l@),
        None => None,
    }
}

/// What a diagnostic complains about.
#[derive(Clone, Copy, PartialEq, Eq, Debug)]
pub enum DiagnosticKind {
    /// An attribute name begins with `=`.
    AttributeNameStartsWithEquals,
    /// An attribute name holds `"`, `'` or `<`.
    InvalidCharInAttributeName,
}

impl DiagnosticKind {
    /// What the diagnostic says.
    pub fn message(&self) -> (text: &'static str)
        ensures
            text@ == match self {
                DiagnosticKind::AttributeNameStartsWithEquals =>
                    "attribute name can't start with equals sign"@,
                DiagnosticKind::InvalidCharInAttributeName => "invalid char in attribute name"@,
            },
    {
        match self {
            DiagnosticKind::AttributeNameStartsWithEquals =>
                "attribute name can't start with equals sign",
            DiagnosticKind::InvalidCharInAttributeName => "invalid char in attribute name",
        }
    }
}

/// A report of malformed markup that did not stop tokenization.
#[derive(Clone, Copy, PartialEq, Eq, Debug)]
pub struct Diagnostic {
    pub kind: DiagnosticKind,
    pub position: LocationPos,
}

/// A diagnostic as plain values.
pub struct DiagnosticView {
    pub kind: DiagnosticKind,
    pub position: SourcePosition,
}

impl View for Diagnostic {
    type V = DiagnosticView;

    open spec fn view(&self) -> DiagnosticView {
        DiagnosticView { kind: self.kind, position: self.position@ }
    }
}

/// A diagnostic list in its mathematical form.
pub open spec fn diagnostics_view(diagnostics: Seq<Diagnostic>) -> Seq<DiagnosticView> {
    Seq::new(diagnostics.len(), |i: int| diagnostics[i]@)
}

/// A token that can be closed by recording the source range it came from.
pub trait Token {
    /// The source range recorded so far.
    spec fn span(&self) -> Option<SourceSpan>;

    fn add_loc(&mut self, loc: Location)
        ensures
            final(self).span() == Some(loc@),
    ;
}

/// A `name="value"` pair of a start tag.
#[derive(Clone, PartialEq, Eq, Debug)]
pub struct TagAttribute {
    pub attribute_name: String,
    pub attribute_value: String,
}

impl View for TagAttribute {
    type V = AttributeView;

    open spec fn view(&self) -> AttributeView {
        AttributeView { name: self.attribute_name@, value: self.attribute_value@ }
    }
}

impl TagAttribute {
    /// Adds `char` to the name.
    pub fn append_to_attribute_name(&mut self, char: char)
        ensures
            final(self)@ == (AttributeView { name: old(self)@.name.push(char), ..old(self)@ }),
    {
        self.attribute_name.push(char);
    }

    /// Adds `char` to the value.
    pub fn append_to_attribute_value(&mut self, char: char)
        ensures
            final(self)@ == (AttributeView { value: old(self)@.value.push(char), ..old(self)@ }),
    {
        self.attribute_value.push(char);
    }
}

/// The attribute list of a start tag, one view per attribute and in order.
pub open spec fn attributes_view(attributes: Seq<TagAttribute>) -> Seq<AttributeView> {
    Seq::new(attributes.len(), |i: int| attributes[i]@)
}

/// A start tag: `<name ...>`. It is open while `loc` is `None`.
#[derive(Clone, PartialEq, Eq, Debug)]
pub struct StartTag {
    pub tag_name: String,
    pub attributes: Vec<TagAttribute>,
    pub self_closing: bool,
    pub loc: Option<Location>,
}

impl View for StartTag {
    type V = StartTagView;

    open spec fn view(&self) -> StartTagView {
        StartTagView {
            name: self.tag_name@,
            attributes: attributes_view(self.attributes@),
            self_closing: self.self_closing,
            span: span_of(self.loc),
        }
    }
}

impl StartTag {
    /// Adds `char` to the name.
    pub fn append_to_tag_name(&mut self, char: char)
        ensures
            final(self)@ == (StartTagView { name: old(self)@.name.push(char), ..old(self)@ }),
    {
        self.tag_name.push(char);
    }

    /// Adds an attribute behind those that the tag has.
    pub fn append_to_attributes(&mut self, tag_attribute: TagAttribute)
        ensures
            final(self)@ == (StartTagView {
                attributes: old(self)@.attributes.push(tag_attribute@),
                ..old(self)@
            }),
    {
        self.attributes.push(tag_attribute);
        assert(attributes_view(self.attributes@) =~= attributes_view(old(self).attributes@).push(
            tag_attribute@,
        ));
    }

    /// Marks the tag as self-closing.
    pub fn mark_as_self_closing(&mut self)
        ensures
            final(self)@ == (StartTagView { self_closing: true, ..old(self)@ }),
    {
        self.self_closing = true;
    }
}

impl Token for StartTag {
    open spec fn span(&self) -> Option<SourceSpan> {
        self@.span
    }

    fn add_loc(&mut self, loc: Location)
        ensures
            final(self)@ == (StartTagView { span: Some(loc@), ..old(self)@ }),
    {
        self.loc = Some(loc);
    }
}

/// An end tag: `</name>`. It is open while `loc` is `None`.
#[derive(Clone, PartialEq, Eq, Debug)]
pub struct EndTag {
    pub tag_name: String,
    pub loc: Option<Location>,
}

impl View for EndTag {
    type V = EndTagView;

    open spec fn view(&self) -> EndTagView {
        EndTagView { name: self.tag_name@, span: span_of(self.loc) }
    }
}

impl EndTag {
    /// Adds `char` to the name.
    pub fn append_to_tag_name(&mut self, char: char)
        ensures
            final(self)@ == (EndTagView { name: old(self)@.name.push(char), ..old(self)@ }),
    {
        self.tag_name.push(char);
    }
}

impl Token for EndTag {
    open spec fn span(&self) -> Option<SourceSpan> {
        self@.span
    }

    fn add_loc(&mut self, loc: Location)
        ensures
            final(self)@ == (EndTagView { span: Some(loc@), ..old(self)@ }),
    {
        self.loc = Some(loc);
    }
}

/// A run of character data. It is open while `loc` is `None`.
#[derive(Clone, PartialEq, Eq, Debug)]
pub struct Chars {
    pub data: String,
    pub loc: Option<Location>,
}

impl View for Chars {
    type V = CharsView;

    open spec fn view(&self) -> CharsView {
        CharsView { text: self.data@, span: span_of(self.loc) }
    }
}

impl Chars {
    /// Adds `char` to the text.
    pub fn append_to_chars(&mut self, char: char)
        ensures
            final(self)@ == (CharsView { text: old(self)@.text.push(char), ..old(self)@ }),
    {
        self.data.push(char);
    }
}

impl Token for Chars {
    open spec fn span(&self) -> Option<SourceSpan> {
        self@.span
    }

    fn add_loc(&mut self, loc: Location)
        ensures
            final(self)@ == (CharsView { span: Some(loc@), ..old(self)@ }),
    {
        self.loc = Some(loc);
    }
}

/// A structural unit of markup.
#[derive(Clone, PartialEq, Eq, Debug)]
pub enum LexerToken {
    StartTag(StartTag),
    EndTag(EndTag),
    Chars(Chars),
}

impl View for LexerToken {
    type V = TokenView;

    open spec fn view(&self) -> TokenView {
        match self {
            LexerToken::StartTag(tag) => TokenView::StartTag(tag@),
            LexerToken::EndTag(tag) => TokenView::EndTag(tag@),
            LexerToken::Chars(chars) => TokenView::Chars(chars@),
        }
    }
}

/// The character that one level of indentation is made of.
#[derive(Clone, Copy, PartialEq, Eq, Debug)]
pub enum IndentStyle {
    Tab,
    Space,
}

impl Default for IndentStyle {
    fn default() -> (style: Self)
        ensures
            style == IndentStyle::Tab,
    {
        IndentStyle::Tab
    }
}

impl IndentStyle {
    /// The character of this style.
    pub open spec fn unit(self) -> char {
        match self {
            IndentStyle::Tab => '\t',
            IndentStyle::Space => ' ',
        }
    }

    /// The indentation of a line at depth `size`: the unit once per level,
    /// and nothing where the depth is zero or negative.
    pub open spec fn indentation(self, size: int) -> Seq<char> {
        Seq::new(
            if size > 0 {
                size as nat
            } else {
                0
            },
            |i: int| self.unit(),
        )
    }

    /// The style that a name stands for: `tab` or `space`.
    pub open spec fn parse_spec(s: Seq<char>) -> Option<IndentStyle> {
        if s == "tab"@ {
            Some(IndentStyle::Tab)
        } else if s == "space"@ {
            Some(IndentStyle::Space)
        } else {
            None
        }
    }

    /// The indentation of a line at depth `size`.
    pub fn repeat(&self, size: i32) -> (indent: String)
        ensures
            indent@ == self.indentation(size as int),
    {
        let unit = match self {
            IndentStyle::Tab => '\t',
            IndentStyle::Space => ' ',
        };
        let mut indent = String::new();
        let mut i: i32 = 0;
        while i < size
            invariant
                0 <= i,
                i <= size || i == 0,
                unit == self.unit(),
                indent@ == self.indentation(i as int),
            decreases size - i,
        {
            indent.push(unit);
            i += 1;
            assert(indent@ =~= self.indentation(i as int));
        }
        assert(self.indentation(i as int) =~= self.indentation(size as int));
        indent
    }

    /// Reads a style from its name.
    pub fn parse(s: &str) -> (r: Result<IndentStyle, &'static str>)
        ensures
            match r {
                Ok(style) => Self::parse_spec(s@) == Some(style),
                Err(message) => Self::parse_spec(s@) is None && message@
                    == "Not valid indent style"@,
            },
    {
        if str_equals(s, "tab") {
            Ok(IndentStyle::Tab)
        } else if str_equals(s, "space") {
            Ok(IndentStyle::Space)
        } else {
            Err("Not valid indent style")
        }
    }
}

impl core::str::FromStr for IndentStyle {
    type Err = &'static str;

    /// Reads a style from its name: `tab` or `space`; any other name is
    /// refused with the message `Not valid indent style`.
    fn from_str(s: &str) -> (r: Result<Self, Self::Err>)
        ensures
            match r {
                Ok(style) => Self::parse_spec(s@) == Some(style),
                Err(message) => Self::parse_spec(s@) is None && message@
                    == "Not valid indent style"@,
            },
    {
        Self::parse(s)
    }
}

/// A token sequence in its mathematical form, one view per token and in order.
pub open spec fn tokens_view(tokens: Seq<LexerToken>) -> Seq<TokenView> {
    Seq::new(tokens.len(), |i: int| tokens[i]@)
}

} // verus!
