//! Markdown → HTML with language classes on fenced code blocks, so that a
//! syntax highlighter can pick them up (`<code class="language-rust">`).
use vstd::prelude::*;
use pulldown_cmark::{html, CodeBlockKind, Event, Options, Parser, Tag, TagEnd};
use crate::text::{html_escape, html_escaped};

verus! {

#[verifier::external_type_specification]
#[verifier::external_body]
pub struct ExEvent<'a>(Event<'a>);

/// Which markdown extensions the parser enables.
#[derive(Clone, Copy)]
pub struct MarkdownOptions {
    pub tables: bool,
    pub strikethrough: bool,
    pub tasklists: bool,
    pub smart_punctuation: bool,
    pub gfm: bool,
}

impl MarkdownOptions {
    /// The extensions the site uses: GitHub-flavoured tables,
    /// strikethrough, task lists, smart punctuation and GFM extras.
    pub fn site_defaults() -> (res: MarkdownOptions)
        ensures
            res == site_options(),
    {
        MarkdownOptions { tables: true, strikethrough: true, tasklists: true, smart_punctuation: true, gfm: true }
    }
}

/// The extensions the site uses: all of them on.
pub open spec fn site_options() -> MarkdownOptions {
    MarkdownOptions { tables: true, strikethrough: true, tasklists: true, smart_punctuation: true, gfm: true }
}

/// What the code-block pass reads of one parser event.
pub enum CodeEvent {
    /// The start of a fenced code block, with its info string (the language).
    FencedStart(String),
    /// The start of an indented code block.
    IndentedStart,
    /// The end of a code block.
    End,
    /// Any other event.
    Other,
}

/// A code event as plain values.
pub enum CodeEventView {
    FencedStart(Seq<char>),
    IndentedStart,
    End,
    Other,
}

impl View for CodeEvent {
    type V = CodeEventView;

    open spec fn view(&self) -> CodeEventView {
        match self {
            CodeEvent::FencedStart(l) => CodeEventView::FencedStart(l@),
            CodeEvent::IndentedStart => CodeEventView::IndentedStart,
            CodeEvent::End => CodeEventView::End,
            CodeEvent::Other => CodeEventView::Other,
        }
    }
}

/// One piece of the rewritten event stream.
pub enum HtmlPiece {
    /// Raw HTML written as it is.
    Raw(String),
    /// The parser's event with this index, unchanged.
    Source(usize),
}

/// An HTML piece as plain values.
pub enum HtmlPieceView {
    Raw(Seq<char>),
    Source(usize),
}

impl View for HtmlPiece {
    type V = HtmlPieceView;

    open spec fn view(&self) -> HtmlPieceView {
        match self {
            HtmlPiece::Raw(s) => HtmlPieceView::Raw(s@),
            HtmlPiece::Source(i) => HtmlPieceView::Source(*i),
        }
    }
}

/// The pieces as plain values.
pub open spec fn pieces_view(ps: Seq<HtmlPiece>) -> Seq<HtmlPieceView> {
    ps.map_values(|p: HtmlPiece| p@)
}

/// The events as plain values.
pub open spec fn code_events_view(es: Seq<CodeEvent>) -> Seq<CodeEventView> {
    es.map_values(|e: CodeEvent| e@)
}

/// A markdown document parsed into events by pulldown-cmark.
pub struct ParsedMarkdown {
    events: Vec<Event<'static>>,
    source: String,
    options: MarkdownOptions,
}

impl ParsedMarkdown {
    /// The markdown text that was parsed.
    pub closed spec fn source_text(&self) -> Seq<char> {
        self.source@
    }

    /// The extensions it was parsed with.
    pub closed spec fn parse_options(&self) -> MarkdownOptions {
        self.options
    }

    /// How many events the parser produced.
    pub closed spec fn event_count(&self) -> nat {
        self.events@.len()
    }
}

/// What pulldown-cmark's parser yields for `markdown` with `options`, as
/// far as the code-block pass reads it: one entry per event.
pub uninterp spec fn markdown_code_events(markdown: Seq<char>, options: MarkdownOptions) -> Seq<CodeEventView>;

/// What pulldown-cmark's `push_html` writes for the event stream given by
/// `plan`, where `Source(i)` stands for the `i`-th event that the parser
/// yields for `markdown` with `options`, and `Raw(s)` for an HTML event `s`.
pub uninterp spec fn markdown_html(markdown: Seq<char>, options: MarkdownOptions, plan: Seq<HtmlPieceView>) -> Seq<char>;

/// Runs `pulldown_cmark::Parser::new_ext` on `markdown` and keeps the events.
/// Trusted: the events are those the parser yields for this text and these
/// options; how many there are is named by `markdown_code_events`.
#[verifier::external_body]
pub(crate) fn parse_markdown(markdown: &str, options: MarkdownOptions) -> (res: ParsedMarkdown)
    ensures
        res.source_text() == markdown@,
        res.parse_options() == options,
        res.event_count() == markdown_code_events(markdown@, options).len(),
{
    let mut opts = Options::empty();
    opts.set(Options::ENABLE_TABLES, options.tables);
    opts.set(Options::ENABLE_STRIKETHROUGH, options.strikethrough);
    opts.set(Options::ENABLE_TASKLISTS, options.tasklists);
    opts.set(Options::ENABLE_SMART_PUNCTUATION, options.smart_punctuation);
    opts.set(Options::ENABLE_GFM, options.gfm);
    let events = Parser::new_ext(markdown, opts).map(|e| e.into_static()).collect();
    ParsedMarkdown { events, source: markdown.to_string(), options }
}

/// Tells apart the variants of the `i`-th `pulldown_cmark::Event` that the
/// code-block pass reads. Trusted: the result is entry `i` of
/// `markdown_code_events` for the parsed text.
#[verifier::external_body]
pub(crate) fn code_event_at(parsed: &ParsedMarkdown, i: usize) -> (res: CodeEvent)
    requires
        i < parsed.event_count(),
    ensures
        res@ == markdown_code_events(parsed.source_text(), parsed.parse_options())[i as int],
{
    match &parsed.events[i] {
        Event::Start(Tag::CodeBlock(CodeBlockKind::Fenced(lang))) => CodeEvent::FencedStart(lang.to_string()),
        Event::Start(Tag::CodeBlock(CodeBlockKind::Indented)) => CodeEvent::IndentedStart,
        Event::End(TagEnd::CodeBlock) => CodeEvent::End,
        _ => CodeEvent::Other,
    }
}

/// Writes the event stream of `plan` as HTML with
/// `pulldown_cmark::html::push_html`. Trusted: the result is named
/// `markdown_html`.
#[verifier::external_body]
pub(crate) fn emit_html(parsed: &ParsedMarkdown, plan: &Vec<HtmlPiece>) -> (res: String)
    requires
        forall|j: int| 0 <= j < plan@.len() ==> (#[trigger] plan@[j] matches HtmlPiece::Source(i) ==> i < parsed.event_count()),
    ensures
        res@ == markdown_html(parsed.source_text(), parsed.parse_options(), pieces_view(plan@)),
{
    let events = plan.iter().map(|p| match p {
        HtmlPiece::Raw(s) => Event::Html(s.clone().into()),
        HtmlPiece::Source(i) => parsed.events[*i].clone(),
    });
    let mut out = String::new();
    html::push_html(&mut out, events);
    out
}

/// Whether, after the events `ks`, a fenced code block with a language is
/// open: its start had a non-empty info string and no end followed.
pub open spec fn language_block_open(ks: Seq<CodeEventView>) -> bool
    decreases ks.len(),
{
    if ks.len() == 0 {
        false
    } else {
        match ks.last() {
            CodeEventView::FencedStart(lang) => lang.len() > 0,
            CodeEventView::End => false,
            _ => language_block_open(ks.drop_last()),
        }
    }
}

/// The opening tags of a code block whose language is `lang`.
pub open spec fn language_open_tag(lang: Seq<char>) -> Seq<char> {
    "<pre><code class=\"language-"@ + html_escaped(lang) + "\">"@
}

/// The pieces that the code-block pass writes for the `i`-th event, `k`,
/// when `open` tells whether a language block is open before it: a fenced
/// start becomes the opening tags (with a language class when it has a
/// language), an end becomes the closing tags, an indented start becomes
/// bare opening tags unless a language block is open, and every other event
/// passes through.
pub open spec fn pieces_for(k: CodeEventView, i: int, open: bool) -> Seq<HtmlPieceView> {
    match k {
        CodeEventView::FencedStart(lang) => if lang.len() > 0 {
            seq![HtmlPieceView::Raw(language_open_tag(lang))]
        } else {
            seq![HtmlPieceView::Raw("<pre><code>"@)]
        },
        CodeEventView::End => seq![HtmlPieceView::Raw("</code></pre>"@)],
        CodeEventView::IndentedStart => if open {
            Seq::empty()
        } else {
            seq![HtmlPieceView::Raw("<pre><code>"@)]
        },
        CodeEventView::Other => seq![HtmlPieceView::Source(i as usize)],
    }
}

/// The rewritten stream for the events `ks`, event after event.
pub open spec fn code_pass(ks: Seq<CodeEventView>) -> Seq<HtmlPieceView>
    decreases ks.len(),
{
    if ks.len() == 0 {
        Seq::empty()
    } else {
        let prev = ks.drop_last();
        code_pass(prev) + pieces_for(ks.last(), prev.len() as int, language_block_open(prev))
    }
}

proof fn lemma_code_pass_sources(ks: Seq<CodeEventView>)
    ensures
        forall|j: int| 0 <= j < code_pass(ks).len() ==>
            (#[trigger] code_pass(ks)[j] matches HtmlPieceView::Source(i) ==> i < ks.len()),
    decreases ks.len(),
{
    if ks.len() > 0 {
        lemma_code_pass_sources(ks.drop_last());
    }
}

/// The end of a code block closes it, whatever came before: after any
/// events and an end, the pass writes the closing tags for the end, and an
/// indented code block that follows gets its opening `<pre><code>`.
pub proof fn lemma_end_then_indented_block(ks: Seq<CodeEventView>)
    ensures
        code_pass(ks.push(CodeEventView::End).push(CodeEventView::IndentedStart))
            == code_pass(ks) + seq![HtmlPieceView::Raw("</code></pre>"@), HtmlPieceView::Raw("<pre><code>"@)],
{
    let a = ks.push(CodeEventView::End);
    let b = a.push(CodeEventView::IndentedStart);
    assert(b.drop_last() =~= a);
    assert(a.drop_last() =~= ks);
    assert(!language_block_open(a));
    assert(b.last() == CodeEventView::IndentedStart);
    assert(a.last() == CodeEventView::End);
    assert(code_pass(a) == code_pass(ks) + pieces_for(CodeEventView::End, ks.len() as int, language_block_open(ks)));
    assert(code_pass(b) == code_pass(a) + pieces_for(CodeEventView::IndentedStart, a.len() as int, language_block_open(a)));
    assert(code_pass(b) =~= code_pass(ks) + seq![HtmlPieceView::Raw("</code></pre>"@), HtmlPieceView::Raw("<pre><code>"@)]);
}

fn raw(s: &str) -> (res: HtmlPiece)
    ensures
        res@ == HtmlPieceView::Raw(s@),
{
    HtmlPiece::Raw(s.to_string())
}

/// Rewrites the starts and ends of code blocks as raw HTML: a fenced block
/// with a language opens with `<pre><code class="language-…">` (the language
/// HTML-escaped), one without with `<pre><code>`, an indented block opens
/// with `<pre><code>` unless a language block is open, every block closes
/// with `</code></pre>`; every other event is kept by its index.
pub fn add_code_language_classes(events: &Vec<CodeEvent>) -> (res: Vec<HtmlPiece>)
    ensures
        pieces_view(res@) == code_pass(code_events_view(events@)),
{
    let ghost ks = code_events_view(events@);
    let mut out: Vec<HtmlPiece> = Vec::new();
    let mut open = false;
    let mut i: usize = 0;
    proof { assert(pieces_view(out@) =~= code_pass(ks.take(0))); }
    while i < events.len()
        invariant
            i <= events@.len(),
            ks == code_events_view(events@),
            pieces_view(out@) == code_pass(ks.take(i as int)),
            open == language_block_open(ks.take(i as int)),
        decreases events@.len() - i,
    {
        let ghost before = out@;
        let ghost pre = ks.take(i as int);
        proof { assert(ks.take(i + 1).drop_last() =~= pre); }
        match &events[i] {
            CodeEvent::FencedStart(lang) => {
                if !lang.as_str().is_empty() {
                    let mut tag = "<pre><code class=\"language-".to_string();
                    let esc = html_escape(lang.as_str());
                    tag.append(esc.as_str());
                    tag.append("\">");
                    out.push(HtmlPiece::Raw(tag));
                    open = true;
                } else {
                    out.push(raw("<pre><code>"));
                    open = false;
                }
            },
            CodeEvent::End => {
                out.push(raw("</code></pre>"));
                open = false;
            },
            CodeEvent::IndentedStart => {
                if !open {
                    out.push(raw("<pre><code>"));
                }
            },
            CodeEvent::Other => {
                out.push(HtmlPiece::Source(i));
            },
        }
        proof {
            assert(ks[i as int] == events@[i as int]@);
            assert(pieces_view(out@) =~= code_pass(ks.take(i as int)) + pieces_for(ks[i as int], i as int, language_block_open(pre)));
        }
        i = i + 1;
    }
    proof { assert(ks.take(ks.len() as int) =~= ks); }
    out
}


/// The HTML that `render` produces for `markdown`: pulldown-cmark's output
/// with the site's extensions, after the code-block pass.
pub open spec fn rendered_html(markdown: Seq<char>) -> Seq<char> {
    markdown_html(markdown, site_options(), code_pass(markdown_code_events(markdown, site_options())))
}

/// Renders a markdown text to HTML with GitHub-flavoured extensions, fenced
/// code blocks carrying a `language-…` class.
pub fn render(markdown: &str) -> (res: String)
    ensures
        res@ == rendered_html(markdown@),
{
    let options = MarkdownOptions::site_defaults();
    let parsed = parse_markdown(markdown, options);
    let ghost ks = markdown_code_events(markdown@, options);
    let n = parsed.events.len();
    let mut kinds: Vec<CodeEvent> = Vec::new();
    let mut i: usize = 0;
    while i < n
        invariant
            n == parsed.event_count(),
            n == ks.len(),
            parsed.source_text() == markdown@,
            parsed.parse_options() == options,
            ks == markdown_code_events(markdown@, options),
            i <= n,
            code_events_view(kinds@) == ks.take(i as int),
        decreases n - i,
    {
        let e = code_event_at(&parsed, i);
        let ghost ev = e@;
        let ghost before = kinds@;
        kinds.push(e);
        proof {
            assert(ev == ks[i as int]);
            assert(code_events_view(kinds@) =~= code_events_view(before).push(ev));
            assert(ks.take(i + 1) =~= ks.take(i as int).push(ks[i as int]));
        }
        i = i + 1;
    }
    proof { assert(ks.take(n as int) =~= ks); }
    let plan = add_code_language_classes(&kinds);
    proof {
        lemma_code_pass_sources(ks);
        assert forall|j: int| 0 <= j < plan@.len() implies (#[trigger] plan@[j] matches HtmlPiece::Source(i) ==> i < parsed.event_count()) by {
            assert(pieces_view(plan@)[j] == plan@[j]@);
        }
    }
    emit_html(&parsed, &plan)
}

} // verus!
