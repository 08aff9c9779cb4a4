//! The layout engine: renders a token sequence as indented text.
use vstd::prelude::*;
use crate::config::Config;
use crate::layout::{
    attribute_renderings, depths_fit, final_depth, join, lemma_join_push,
    lemma_render_attribute_len, lemma_renderings_take, own_lines, render_attribute,
    render_end_tag, render_line, render_start_tag, render_tokens, single_line,
};
use crate::models::{
    attributes_view, tokens_view, Chars, EndTag, IndentStyle, LexerToken, StartTag, TagAttribute,
    TokenView,
};
use crate::utils::{
    checked_grow, checked_grow_by_str, checked_len, lemma_grow, lemma_utf8_len_add,
    lemma_utf8_len_empty, lemma_utf8_len_one, utf8_len,
};

verus! {

/// Renders tokens as indented text and keeps the depth between calls.
pub struct Formatter<'a> {
    tokens: Vec<LexerToken>,
    config: &'a Config,
    indent_count: i32,
}

impl<'a> Formatter<'a> {
    /// The tokens to render.
    pub closed spec fn tokens(&self) -> Seq<TokenView> {
        tokens_view(self.tokens@)
    }

    /// The indent style of the configuration.
    pub closed spec fn style(&self) -> IndentStyle {
        self.config.indent_style
    }

    /// The maximal line length of the configuration.
    pub closed spec fn max_line_length(&self) -> int {
        self.config.max_line_length as int
    }

    /// The depth at which the next token is met.
    pub closed spec fn depth(&self) -> int {
        self.indent_count as int
    }

    /// A formatter for `tokens` at depth 0.
    pub fn new(tokens: Vec<LexerToken>, config: &'a Config) -> (formatter: Self)
        ensures
            formatter.tokens() == tokens_view(tokens@),
            formatter.style() == config.indent_style,
            formatter.max_line_length() == config.max_line_length,
            formatter.depth() == 0,
    {
        Self { tokens, config, indent_count: 0 }
    }

    /// Whether the depth counter can follow the tokens from where it stands.
    pub fn can_format(&self) -> (fits: bool)
        ensures
            fits == depths_fit(self.tokens(), self.depth()),
    {
        let ghost all = self.tokens();
        let ghost start = self.depth();
        let mut depth: i32 = self.indent_count;
        let mut i: usize = 0;
        assert(all.take(0) =~= Seq::<TokenView>::empty());
        while i < self.tokens.len()
            invariant
                i <= self.tokens.len(),
                all == self.tokens(),
                start == self.depth(),
                all.len() == self.tokens.len(),
                depth == final_depth(all.take(i as int), start),
                forall|k: int|
                    0 <= k <= i ==> i32::MIN <= #[trigger] final_depth(all.take(k), start)
                        <= i32::MAX,
            decreases self.tokens.len() - i,
        {
            proof {
                assert(all.take(i + 1).drop_last() =~= all.take(i as int));
                assert(all.take(i + 1).last() == all[i as int]);
                assert(all[i as int] == self.tokens@[i as int]@);
            }
            let next = match &self.tokens[i] {
                LexerToken::StartTag(_) => depth.checked_add(1),
                LexerToken::EndTag(_) => depth.checked_sub(1),
                LexerToken::Chars(_) => Some(depth),
            };
            match next {
                Some(d) => {
                    depth = d;
                },
                None => {
                    assert(!(i32::MIN <= final_depth(all.take(i + 1), start) <= i32::MAX));
                    return false;
                },
            }
            i += 1;
        }
        true
    }

    /// Renders the tokens, one line each, and leaves the depth where the
    /// last token has put it.
    pub fn format(&mut self) -> (content: String)
        requires
            depths_fit(old(self).tokens(), old(self).depth()),
        ensures
            content@ == render_tokens(
                old(self).tokens(),
                old(self).style(),
                old(self).max_line_length(),
                old(self).depth(),
            ),
            final(self).depth() == final_depth(old(self).tokens(), old(self).depth()),
            final(self).tokens() == old(self).tokens(),
            final(self).style() == old(self).style(),
            final(self).max_line_length() == old(self).max_line_length(),
    {
        let mut content = String::new();
        let ghost all = self.tokens();
        let ghost depth = self.depth();
        let mut i: usize = 0;
        while i < self.tokens.len()
            invariant
                i <= self.tokens.len(),
                self.tokens() == all,
                all.len() == self.tokens.len(),
                self.style() == old(self).style(),
                self.max_line_length() == old(self).max_line_length(),
                depths_fit(all, depth),
                self.depth() == final_depth(all.take(i as int), depth),
                content@ == render_tokens(all.take(i as int), self.style(), self.max_line_length(), depth),
            decreases self.tokens.len() - i,
        {
            proof {
                assert(all.take(i + 1).drop_last() =~= all.take(i as int));
                assert(all.take(i + 1).last() == all[i as int]);
                assert(all[i as int] == self.tokens@[i as int]@);
                let after = final_depth(all.take(i + 1), depth);
                assert(i32::MIN <= after <= i32::MAX);
            }
            let ghost before = content@;
            let closes = match &self.tokens[i] {
                LexerToken::EndTag(_) => true,
                _ => false,
            };
            let opens = match &self.tokens[i] {
                LexerToken::StartTag(_) => true,
                _ => false,
            };
            if closes {
                self.indent_count -= 1;
            }
            let result = match &self.tokens[i] {
                LexerToken::StartTag(start_tag) => self.format_start_tag(start_tag),
                LexerToken::Chars(chars) => self.format_chars(chars),
                LexerToken::EndTag(end_tag) => self.format_end_tag(end_tag),
            };
            let indent = self.config.indent_style.repeat(self.indent_count);
            content.append(indent.as_str());
            content.append(result.as_str());
            content.push('\n');
            if opens {
                self.indent_count += 1;
            }
            i += 1;
            proof {
                let line = render_line(
                    all[i - 1],
                    self.style(),
                    self.max_line_length(),
                    final_depth(all.take(i - 1), depth),
                );
                assert(content@ =~= before + line);
            }
        }
        assert(all.take(i as int) =~= all);
        content
    }

    fn format_start_tag(&self, tag: &StartTag) -> (result: String)
        requires
            self.depth() + 1 <= i32::MAX,
        ensures
            result@ == render_start_tag(
                tag@,
                self.style(),
                self.max_line_length(),
                self.depth(),
            ),
    {
        let mut result = String::new();
        let break_tag_attrs = match self.get_len_tag_attributes(&tag.attributes) {
            Some(len) => self.config.max_line_length < 0 || len > self.config.max_line_length as usize,
            None => true,
        };
        let attrs = self.format_tag_attributes(&tag.attributes, break_tag_attrs);
        result.push('<');
        result.append(tag.tag_name.as_str());
        if tag.attributes.len() > 0 {
            if break_tag_attrs {
                result.push('\n');
            } else {
                result.push(' ');
            }
            result.append(attrs.as_str());
        }
        if tag.self_closing {
            result.push('/');
        }
        result.push('>');
        assert(result@ =~= render_start_tag(
            tag@,
            self.style(),
            self.max_line_length(),
            self.depth(),
        ));
        result
    }

    /// The attributes, each on a line of its own one level deeper than the
    /// tag where `break_tag_attrs` is set, else on one line.
    fn format_tag_attributes(&self, tag_attrs: &Vec<TagAttribute>, break_tag_attrs: bool) -> (result:
        String)
        requires
            self.depth() + 1 <= i32::MAX,
        ensures
            result@ == if break_tag_attrs {
                own_lines(attributes_view(tag_attrs@), self.style().indentation(self.depth() + 1))
            } else {
                single_line(attributes_view(tag_attrs@))
            },
    {
        let prefix = if break_tag_attrs {
            self.config.indent_style.repeat(self.indent_count + 1)
        } else {
            String::new()
        };
        let separator = if break_tag_attrs {
            '\n'
        } else {
            ' '
        };
        let ghost attributes = attributes_view(tag_attrs@);
        let mut result = String::new();
        let mut i: usize = 0;
        while i < tag_attrs.len()
            invariant
                i <= tag_attrs.len(),
                attributes == attributes_view(tag_attrs@),
                result@ == join(
                    attribute_renderings(attributes.take(i as int), prefix@),
                    seq![separator],
                ),
            decreases tag_attrs.len() - i,
        {
            let ghost before = result@;
            if i > 0 {
                result.push(separator);
            }
            result.append(prefix.as_str());
            let rendering = self.format_tag_attribute(&tag_attrs[i]);
            result.append(rendering.as_str());
            proof {
                lemma_renderings_take(attributes, prefix@, i as int);
                lemma_join_push(
                    attribute_renderings(attributes.take(i as int), prefix@),
                    seq![separator],
                    prefix@ + render_attribute(attributes[i as int]),
                );
                assert(result@ =~= if i == 0 {
                    prefix@ + render_attribute(attributes[i as int])
                } else {
                    before + seq![separator] + (prefix@ + render_attribute(attributes[i as int]))
                });
            }
            i += 1;
        }
        assert(attributes.take(i as int) =~= attributes);
        result
    }

    /// The length in bytes of the single-line rendering, where it fits in
    /// a `usize`.
    fn get_len_tag_attributes(&self, tag_attrs: &Vec<TagAttribute>) -> (line_length: Option<usize>)
        ensures
            line_length == checked_len(utf8_len(single_line(attributes_view(tag_attrs@))) as int),
    {
        let ghost attributes = attributes_view(tag_attrs@);
        let mut line_length: Option<usize> = Some(0);
        let mut i: usize = 0;
        proof {
            lemma_utf8_len_empty();
        }
        while i < tag_attrs.len()
            invariant
                i <= tag_attrs.len(),
                attributes == attributes_view(tag_attrs@),
                line_length == checked_len(utf8_len(single_line(attributes.take(i as int))) as int),
            decreases tag_attrs.len() - i,
        {
            let ghost before = utf8_len(single_line(attributes.take(i as int)));
            let ghost attribute = attributes[i as int];
            let ghost rendering = render_attribute(attribute);
            proof {
                let empty = Seq::<char>::empty();
                lemma_renderings_take(attributes, empty, i as int);
                lemma_join_push(
                    attribute_renderings(attributes.take(i as int), empty),
                    seq![' '],
                    empty + rendering,
                );
                assert(empty + rendering =~= rendering);
                lemma_render_attribute_len(attribute);
                if i > 0 {
                    lemma_utf8_len_add(single_line(attributes.take(i as int)) + seq![' '], rendering);
                    lemma_utf8_len_add(single_line(attributes.take(i as int)), seq![' ']);
                    lemma_utf8_len_one(' ');
                }
                lemma_grow(before, 1);
                lemma_grow(if i > 0 { before + 1 } else { before }, utf8_len(attribute.name));
                lemma_grow(
                    (if i > 0 { before + 1 } else { before }) + utf8_len(attribute.name),
                    2,
                );
                lemma_grow(
                    (if i > 0 { before + 1 } else { before }) + utf8_len(attribute.name) + 2,
                    utf8_len(attribute.value),
                );
                lemma_grow(
                    (if i > 0 { before + 1 } else { before }) + utf8_len(attribute.name) + 2
                        + utf8_len(attribute.value),
                    1,
                );
            }
            if i > 0 {
                line_length = checked_grow(line_length, 1);
            }
            line_length = checked_grow_by_str(line_length, tag_attrs[i].attribute_name.as_str());
            line_length = checked_grow(line_length, 2);
            line_length = checked_grow_by_str(line_length, tag_attrs[i].attribute_value.as_str());
            line_length = checked_grow(line_length, 1);
            i += 1;
        }
        assert(attributes.take(i as int) =~= attributes);
        line_length
    }

    fn format_tag_attribute(&self, tag_attr: &TagAttribute) -> (result: String)
        ensures
            result@ == render_attribute(tag_attr@),
    {
        let mut result = String::new();
        result.append(tag_attr.attribute_name.as_str());
        result.push('=');
        result.push('"');
        result.append(tag_attr.attribute_value.as_str());
        result.push('"');
        assert(result@ =~= render_attribute(tag_attr@));
        result
    }

    fn format_chars(&self, chars: &Chars) -> (result: String)
        ensures
            result@ == chars@.text,
    {
        chars.data.clone()
    }

    fn format_end_tag(&self, end_tag: &EndTag) -> (result: String)
        ensures
            result@ == render_end_tag(end_tag@),
    {
        let mut result = String::new();
        result.push('<');
        result.push('/');
        result.append(end_tag.tag_name.as_str());
        result.push('>');
        assert(result@ =~= render_end_tag(end_tag@));
        result
    }
}

} // verus!
