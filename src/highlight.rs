//! The colouring pipeline: each line is tokenized in order from the top by
//! a syntax definition, and each token gets its colour from a theme.

use vstd::prelude::*;
use syntect::highlighting::{HighlightIterator, HighlightState, Highlighter, Theme};
use syntect::parsing::{ParseState, ScopeStack, SyntaxReference, SyntaxSet};
use crate::text::{chars_of, string_of};

verus! {

/// syntect's set of syntax definitions, carried opaque.
#[verifier::external_type_specification]
#[verifier::external_body]
pub struct ExSyntaxSet(SyntaxSet);

/// One syntax definition of a set, carried opaque.
#[verifier::external_type_specification]
#[verifier::external_body]
pub struct ExSyntaxReference(SyntaxReference);

/// A colour theme, carried opaque.
#[verifier::external_type_specification]
#[verifier::external_body]
pub struct ExTheme(Theme);

/// The tokenizer's state between lines, carried opaque.
#[verifier::external_type_specification]
#[verifier::external_body]
pub struct ExParseState(ParseState);

/// The theme's style stack between lines, carried opaque.
#[verifier::external_type_specification]
#[verifier::external_body]
pub struct ExHighlightState(HighlightState);

/// A theme's style lookup, carried opaque.
#[verifier::external_type_specification]
#[verifier::external_body]
pub struct ExHighlighter<'a>(Highlighter<'a>);

/// A colour, one byte per channel.
#[derive(Clone, Copy, Debug, PartialEq, Eq, Structural)]
pub struct Rgba {
    pub r: u8,
    pub g: u8,
    pub b: u8,
    pub a: u8,
}

/// A run of text drawn in one colour.
pub struct TextChunk {
    pub text: String,
    pub color: Rgba,
}

/// The colour of text where no syntax applies.
pub open spec fn plain_color() -> Rgba {
    Rgba { r: 255, g: 255, b: 255, a: 255 }
}

/// The text of a line's runs, concatenated.
pub open spec fn chunks_text(cs: Seq<TextChunk>) -> Seq<char>
    decreases cs.len(),
{
    if cs.len() == 0 {
        Seq::empty()
    } else {
        chunks_text(cs.drop_last()) + cs.last().text@
    }
}

/// The syntax and theme that a buffer is coloured with. The fields are
/// private and `for_extension` is the only constructor, so `syntax` always
/// belongs to `syntaxes`.
pub struct Palette<'a> {
    syntaxes: &'a SyntaxSet,
    syntax: &'a SyntaxReference,
    theme: &'a Theme,
}

/// Relies on `SyntaxSet::find_syntax_by_extension`: the syntax of
/// `syntaxes` for files with extension `ext`, if it has one.
#[verifier::external_body]
fn find_syntax<'a>(syntaxes: &'a SyntaxSet, ext: &str) -> Option<&'a SyntaxReference> {
    syntaxes.find_syntax_by_extension(ext)
}

impl<'a> Palette<'a> {
    /// The palette for files with extension `ext`: the syntax that
    /// `syntaxes` has for it, with `theme`; `None` where it has none.
    pub fn for_extension(syntaxes: &'a SyntaxSet, theme: &'a Theme, ext: &str) -> Option<Palette<'a>> {
        match find_syntax(syntaxes, ext) {
            Some(syntax) => Some(Palette { syntaxes, syntax, theme }),
            None => None,
        }
    }
}

/// Relies on `Highlighter::new`: the style lookup of a theme.
#[verifier::external_body]
fn theme_styles<'a>(theme: &'a Theme) -> Highlighter<'a> {
    Highlighter::new(theme)
}

/// Relies on `ParseState::new`: a tokenizer at the start of a document.
#[verifier::external_body]
fn start_parse(syntax: &SyntaxReference) -> ParseState {
    ParseState::new(syntax)
}

/// Relies on `HighlightState::new`: the styles at the start of a document,
/// with an empty scope stack.
#[verifier::external_body]
fn start_styles(highlighter: &Highlighter) -> HighlightState {
    HighlightState::new(highlighter, ScopeStack::new())
}

/// The tokenizer and style state carried from line to line. The fields are
/// private and `start` is the only constructor, so the tokenizer always
/// works with a syntax of `syntaxes`.
struct Colourer<'a> {
    syntaxes: &'a SyntaxSet,
    highlighter: Highlighter<'a>,
    parse: ParseState,
    styles: HighlightState,
}

fn start<'a>(p: &Palette<'a>) -> Colourer<'a> {
    let highlighter = theme_styles(p.theme);
    let styles = start_styles(&highlighter);
    Colourer { syntaxes: p.syntaxes, highlighter, parse: start_parse(p.syntax), styles }
}

/// Relies on `ParseState::parse_line` and `HighlightIterator`: the line is
/// tokenized (`None` where the syntax definition fails), then cut into
/// pieces at the scope changes, each with the theme's foreground colour.
/// The scope changes never leave this function, so they always belong to
/// `line`. The iterator's documentation gives that the pieces concatenate to
/// the line; it stops early if a scope change does not apply, so what is
/// promised here is a prefix.
#[verifier::external_body]
fn colour_line(c: &mut Colourer, line: &str) -> (r: Option<Vec<TextChunk>>)
    ensures
        r is Some ==> chunks_text(r->0@).len() <= line@.len(),
        r is Some ==> chunks_text(r->0@) == line@.subrange(0, chunks_text(r->0@).len() as int),
{
    let changes = c.parse.parse_line(line, c.syntaxes).ok()?;
    Some(HighlightIterator::new(&mut c.styles, &changes, line, &c.highlighter).map(|(s, t)| TextChunk {
        text: t.to_string(),
        color: Rgba { r: s.foreground.r, g: s.foreground.g, b: s.foreground.b, a: s.foreground.a },
    }).collect())
}

/// The rendering of one line without a syntax: all of it in the plain
/// colour.
pub fn plain_line(line: &String) -> (r: Vec<TextChunk>)
    ensures
        r@.len() == 1,
        r@[0].text@ == line@,
        r@[0].color == plain_color(),
        chunks_text(r@) == line@,
{
    let mut r: Vec<TextChunk> = Vec::new();
    r.push(TextChunk { text: line.clone(), color: Rgba { r: 255, g: 255, b: 255, a: 255 } });
    proof {
        assert(r@.drop_last() =~= Seq::<TextChunk>::empty());
        assert(chunks_text(r@.drop_last()) == Seq::<char>::empty());
        assert(chunks_text(r@) =~= line@);
    }
    r
}

/// Runs that spell out a prefix of `line`, completed with the rest of the
/// line in the plain colour.
fn complete(cs: Vec<TextChunk>, line: &String) -> (r: Vec<TextChunk>)
    requires
        chunks_text(cs@).len() <= line@.len(),
        chunks_text(cs@) == line@.subrange(0, chunks_text(cs@).len() as int),
    ensures
        chunks_text(r@) == line@,
{
    let mut cs = cs;
    let chars = chars_of(line.as_str());
    let n = chars.len();
    let mut done: usize = 0;
    let mut i: usize = 0;
    while i < cs.len()
        invariant
            i <= cs@.len(),
            done == chunks_text(cs@.subrange(0, i as int)).len(),
            chunks_text(cs@).len() <= line@.len(),
            chunks_text(cs@) == line@.subrange(0, chunks_text(cs@).len() as int),
            chars@ == line@,
            n == line@.len(),
            done <= chunks_text(cs@).len(),
        decreases cs@.len() - i,
    {
        proof {
            lemma_chunks_prefix(cs@, i as int + 1);
            assert(cs@.subrange(0, i as int + 1).drop_last() =~= cs@.subrange(0, i as int));
            assert(cs@.subrange(0, i as int + 1).last() == cs@[i as int]);
        }
        done = done + cs[i].text.as_str().unicode_len();
        i = i + 1;
    }
    proof {
        assert(cs@.subrange(0, cs@.len() as int) =~= cs@);
    }
    if done < chars.len() {
        let mut rest: Vec<char> = Vec::new();
        let mut j: usize = done;
        while j < chars.len()
            invariant
                done <= j <= chars@.len(),
                rest@ == chars@.subrange(done as int, j as int),
            decreases chars@.len() - j,
        {
            rest.push(chars[j]);
            j = j + 1;
            proof {
                assert(rest@ =~= chars@.subrange(done as int, j as int));
            }
        }
        let ghost before = cs@;
        cs.push(TextChunk { text: string_of(&rest), color: Rgba { r: 255, g: 255, b: 255, a: 255 } });
        proof {
            assert(cs@.drop_last() =~= before);
            assert(chunks_text(cs@) =~= line@);
        }
    } else {
        proof {
            assert(chunks_text(cs@) =~= line@);
        }
    }
    cs
}

/// The text of the first `n` runs is a prefix of the text of all of them.
proof fn lemma_chunks_prefix(cs: Seq<TextChunk>, n: int)
    requires
        0 <= n <= cs.len(),
    ensures
        chunks_text(cs.subrange(0, n)).len() <= chunks_text(cs).len(),
    decreases cs.len() - n,
{
    if n < cs.len() {
        lemma_chunks_prefix(cs, n + 1);
        assert(cs.subrange(0, n + 1).drop_last() =~= cs.subrange(0, n));
    } else {
        assert(cs.subrange(0, n) =~= cs);
    }
}

/// Colours every line, tokenizing from the first line on so that each line
/// starts in the state where the one before ended. The runs of each line
/// spell out the line; without a palette each line is one run in the plain
/// colour.
pub fn render_lines(lines: &Vec<String>, palette: Option<&Palette>) -> (r: Vec<Vec<TextChunk>>)
    ensures
        r@.len() == lines@.len(),
        forall|i: int| 0 <= i < lines@.len() ==> chunks_text((#[trigger] r@[i])@) == lines@[i]@,
        palette is None ==> forall|i: int|
            0 <= i < lines@.len() ==> {
                let cs = (#[trigger] r@[i])@;
                cs.len() == 1 && cs[0].text@ == lines@[i]@ && cs[0].color == plain_color()
            },
{
    let mut out: Vec<Vec<TextChunk>> = Vec::new();
    match palette {
        None => {
            let mut i: usize = 0;
            while i < lines.len()
                invariant
                    palette is None,
                    i <= lines@.len(),
                    out@.len() == i,
                    forall|j: int| 0 <= j < i ==> chunks_text((#[trigger] out@[j])@) == lines@[j]@,
                    forall|j: int|
                        0 <= j < i ==> {
                            let cs = (#[trigger] out@[j])@;
                            cs.len() == 1 && cs[0].text@ == lines@[j]@ && cs[0].color
                                == plain_color()
                        },
                decreases lines@.len() - i,
            {
                out.push(plain_line(&lines[i]));
                i = i + 1;
            }
        },
        Some(p) => {
            let mut c = start(p);
            let mut i: usize = 0;
            while i < lines.len()
                invariant
                    palette is Some,
                    i <= lines@.len(),
                    out@.len() == i,
                    forall|j: int| 0 <= j < i ==> chunks_text((#[trigger] out@[j])@) == lines@[j]@,
                decreases lines@.len() - i,
            {
                let cs = match colour_line(&mut c, lines[i].as_str()) {
                    Some(cs) => complete(cs, &lines[i]),
                    None => plain_line(&lines[i]),
                };
                out.push(cs);
                i = i + 1;
            }
        },
    }
    out
}

} // verus!
