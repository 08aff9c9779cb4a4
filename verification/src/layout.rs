//! What formatted text looks like: the rendering of each token, the depth
//! of each line and the text of a whole token sequence.
use vstd::prelude::*;
use crate::models::{AttributeView, EndTagView, IndentStyle, StartTagView, TokenView};
use crate::utils::{lemma_utf8_len_add, lemma_utf8_len_one, utf8_len};

verus! {

/// The parts in order, with the separator between each two neighbours.
pub open spec fn join(parts: Seq<Seq<char>>, separator: Seq<char>) -> Seq<char>
    decreases parts.len(),
{
    if parts.len() == 0 {
        Seq::empty()
    } else if parts.len() == 1 {
        parts[0]
    } else {
        join(parts.drop_last(), separator) + separator + parts.last()
    }
}

/// An attribute as `name="value"`.
pub open spec fn render_attribute(attribute: AttributeView) -> Seq<char> {
    attribute.name + seq!['=', '"'] + attribute.value + seq!['"']
}

/// Each attribute rendered behind `prefix`.
pub open spec fn attribute_renderings(attributes: Seq<AttributeView>, prefix: Seq<char>) -> Seq<
    Seq<char>,
> {
    Seq::new(attributes.len(), |i: int| prefix + render_attribute(attributes[i]))
}

/// All attributes on one line, a single space between each two.
pub open spec fn single_line(attributes: Seq<AttributeView>) -> Seq<char> {
    join(attribute_renderings(attributes, Seq::empty()), seq![' '])
}

/// Each attribute on a line of its own behind `prefix`.
pub open spec fn own_lines(attributes: Seq<AttributeView>, prefix: Seq<char>) -> Seq<char> {
    join(attribute_renderings(attributes, prefix), seq!['\n'])
}

/// Whether the attributes are too long for one line: the single-line
/// rendering takes more bytes of UTF-8 than the line may have.
pub open spec fn exceeds(attributes: Seq<AttributeView>, max_line_length: int) -> bool {
    utf8_len(single_line(attributes)) > max_line_length
}

/// The attributes of a start tag at `depth`, with what separates them from
/// the tag name: on the tag's line where they fit, else one per line and
/// one level deeper than the tag.
pub open spec fn render_attributes(
    attributes: Seq<AttributeView>,
    style: IndentStyle,
    max_line_length: int,
    depth: int,
) -> Seq<char> {
    if attributes.len() == 0 {
        Seq::empty()
    } else if exceeds(attributes, max_line_length) {
        seq!['\n'] + own_lines(attributes, style.indentation(depth + 1))
    } else {
        seq![' '] + single_line(attributes)
    }
}

/// A start tag at `depth`: `<`, the name, the attributes, `/` where the
/// tag is self-closing, and `>`.
pub open spec fn render_start_tag(
    tag: StartTagView,
    style: IndentStyle,
    max_line_length: int,
    depth: int,
) -> Seq<char> {
    seq!['<'] + tag.name + render_attributes(tag.attributes, style, max_line_length, depth) + (
    if tag.self_closing {
        seq!['/']
    } else {
        Seq::empty()
    }) + seq!['>']
}

/// An end tag: `</`, the name and `>`.
pub open spec fn render_end_tag(tag: EndTagView) -> Seq<char> {
    seq!['<', '/'] + tag.name + seq!['>']
}

/// A token as it stands on its line at `depth`. Character data is kept as
/// it is.
pub open spec fn render_token(
    token: TokenView,
    style: IndentStyle,
    max_line_length: int,
    depth: int,
) -> Seq<char> {
    match token {
        TokenView::StartTag(tag) => render_start_tag(tag, style, max_line_length, depth),
        TokenView::EndTag(tag) => render_end_tag(tag),
        TokenView::Chars(chars) => chars.text,
    }
}

/// The depth at which a token's line is written, given the depth before
/// the token: an end tag steps back first.
pub open spec fn line_depth(token: TokenView, depth: int) -> int {
    if token is EndTag {
        depth - 1
    } else {
        depth
    }
}

/// The depth after a token: every start tag opens a level, self-closing or
/// not, and every end tag closes one. The depth may become negative.
pub open spec fn depth_after(token: TokenView, depth: int) -> int {
    match token {
        TokenView::StartTag(_) => depth + 1,
        TokenView::EndTag(_) => depth - 1,
        TokenView::Chars(_) => depth,
    }
}

/// The line of a token: its indentation, its rendering and a newline.
pub open spec fn render_line(
    token: TokenView,
    style: IndentStyle,
    max_line_length: int,
    depth: int,
) -> Seq<char> {
    let at = line_depth(token, depth);
    style.indentation(at) + render_token(token, style, max_line_length, at) + seq!['\n']
}

/// The depth after all of `tokens`, starting from `depth`.
pub open spec fn final_depth(tokens: Seq<TokenView>, depth: int) -> int
    decreases tokens.len(),
{
    if tokens.len() == 0 {
        depth
    } else {
        depth_after(tokens.last(), final_depth(tokens.drop_last(), depth))
    }
}

/// The formatted text of `tokens`: one line per token, in order.
pub open spec fn render_tokens(
    tokens: Seq<TokenView>,
    style: IndentStyle,
    max_line_length: int,
    depth: int,
) -> Seq<char>
    decreases tokens.len(),
{
    if tokens.len() == 0 {
        Seq::empty()
    } else {
        render_tokens(tokens.drop_last(), style, max_line_length, depth) + render_line(
            tokens.last(),
            style,
            max_line_length,
            final_depth(tokens.drop_last(), depth),
        )
    }
}

/// Whether the depth stays within a 32-bit counter all the way through
/// `tokens`.
pub open spec fn depths_fit(tokens: Seq<TokenView>, depth: int) -> bool {
    forall|k: int|
        0 <= k <= tokens.len() ==> i32::MIN <= #[trigger] final_depth(tokens.take(k), depth)
            <= i32::MAX
}

/// The depth moves by at most one per token.
pub proof fn lemma_final_depth_bounds(tokens: Seq<TokenView>, depth: int)
    ensures
        depth - tokens.len() <= final_depth(tokens, depth) <= depth + tokens.len(),
    decreases tokens.len(),
{
    if tokens.len() > 0 {
        lemma_final_depth_bounds(tokens.drop_last(), depth);
    }
}

/// A token sequence is short enough for the depth counter when its length,
/// added to the distance of the starting depth from zero, fits in 32 bits.
pub proof fn law_short_documents_fit(tokens: Seq<TokenView>, depth: int)
    requires
        i32::MIN <= depth - tokens.len(),
        depth + tokens.len() <= i32::MAX,
    ensures
        depths_fit(tokens, depth),
{
    assert forall|k: int| 0 <= k <= tokens.len() implies i32::MIN <= #[trigger] final_depth(
        tokens.take(k),
        depth,
    ) <= i32::MAX by {
        lemma_final_depth_bounds(tokens.take(k), depth);
    }
}

/// Joined parts grow by one part: the separator, unless the part is the
/// first, and the part.
pub proof fn lemma_join_push(parts: Seq<Seq<char>>, separator: Seq<char>, part: Seq<char>)
    ensures
        join(parts.push(part), separator) == if parts.len() == 0 {
            part
        } else {
            join(parts, separator) + separator + part
        },
{
    assert(parts.push(part).drop_last() =~= parts);
}

/// The renderings of the first `i + 1` attributes are those of the first
/// `i` and the rendering of the attribute at `i`.
pub proof fn lemma_renderings_take(attributes: Seq<AttributeView>, prefix: Seq<char>, i: int)
    requires
        0 <= i < attributes.len(),
    ensures
        attribute_renderings(attributes.take(i + 1), prefix) == attribute_renderings(
            attributes.take(i),
            prefix,
        ).push(prefix + render_attribute(attributes[i])),
        attribute_renderings(attributes.take(i), prefix).len() == i,
{
    assert(attribute_renderings(attributes.take(i + 1), prefix) =~= attribute_renderings(
        attributes.take(i),
        prefix,
    ).push(prefix + render_attribute(attributes[i])));
}

/// A rendered attribute takes the bytes of its name and of its value, and
/// three more for `=` and the two quotes.
pub proof fn lemma_render_attribute_len(attribute: AttributeView)
    ensures
        utf8_len(render_attribute(attribute)) == utf8_len(attribute.name) + 2 + utf8_len(
            attribute.value,
        ) + 1,
{
    let quote = seq!['"'];
    let equals = seq!['=', '"'];
    lemma_utf8_len_add(attribute.name + equals + attribute.value, quote);
    lemma_utf8_len_add(attribute.name + equals, attribute.value);
    lemma_utf8_len_add(attribute.name, equals);
    lemma_utf8_len_one('"');
    lemma_utf8_len_one('=');
    assert(equals =~= seq!['='] + seq!['"']);
    lemma_utf8_len_add(seq!['='], seq!['"']);
}

} // verus!
