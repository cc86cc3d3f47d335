//! The Markdown-to-HTML transducer: a single-pass, stateful rewriter of
//! the parsed event stream. It tracks at most one active capture
//! context (heading, image or fenced block), renders built-in blocks,
//! consults the preview cache, extracts the table of contents, and
//! normalizes heading depths.
//!
//! Parsing and final HTML assembly are pulldown-cmark's, behind trusted
//! wrappers; every decision between them is verified. The specification
//! is [`td_run_to`], a deterministic fold over the token stream; the
//! contents of heading fragments (rendered by pulldown-cmark) are the
//! only values left existential.

use vstd::prelude::*;

use pulldown_cmark::Event;

use crate::code_blocks::{fenced_of, callout_kind_of, callout_opts_ok, image_html_spec,
    pre_block_spec, preview_card_spec, preview_pending_spec, quote_of, spec_callout_name,
    spec_quote_name, spec_url_preview_name, Fenced, RenderError, RenderErrorV};
use crate::templates::callout_html_spec;
use crate::data::{assoc_find, CacheModel, GenkitData, PreviewEventV};
use crate::entity::MarkdownConfig;
use crate::highlight::highlighted_of;
use crate::templates::{heading_html_spec, render_heading_template};
use crate::text::lower_of;
use crate::visitor::MarkdownVisitor;

verus! {

#[verifier::external_type_specification]
#[verifier::external_body]
pub struct ExEvent<'a>(Event<'a>);

// ---------------------------------------------------------------------
// Tokens.
// ---------------------------------------------------------------------
/// The structural classification of one parsed event. Everything the
/// dispatch rules read is carried as plain values; events of other
/// kinds pass through as `Other`.
pub enum MdToken {
    HeadingStart { level: u8, id: Option<String> },
    HeadingEnd,
    ImageStart { dest: String, title: String },
    ImageEnd,
    FenceStart { info: String },
    FenceEnd,
    Text(String),
    Code(String),
    Other,
}

/// The mathematical value of a token.
pub enum MdTokenV {
    HeadingStart { level: u8, id: Option<Seq<char>> },
    HeadingEnd,
    ImageStart { dest: Seq<char>, title: Seq<char> },
    ImageEnd,
    FenceStart { info: Seq<char> },
    FenceEnd,
    Text(Seq<char>),
    Code(Seq<char>),
    Other,
}

impl View for MdToken {
    type V = MdTokenV;

    open spec fn view(&self) -> MdTokenV {
        match self {
            MdToken::HeadingStart { level, id } => MdTokenV::HeadingStart {
                level: *level,
                id: match id {
                    Some(i) => Some(i@),
                    None => None,
                },
            },
            MdToken::HeadingEnd => MdTokenV::HeadingEnd,
            MdToken::ImageStart { dest, title } => MdTokenV::ImageStart {
                dest: dest@,
                title: title@,
            },
            MdToken::ImageEnd => MdTokenV::ImageEnd,
            MdToken::FenceStart { info } => MdTokenV::FenceStart { info: info@ },
            MdToken::FenceEnd => MdTokenV::FenceEnd,
            MdToken::Text(s) => MdTokenV::Text(s@),
            MdToken::Code(s) => MdTokenV::Code(s@),
            MdToken::Other => MdTokenV::Other,
        }
    }
}

// ---------------------------------------------------------------------
// Table of contents.
// ---------------------------------------------------------------------
/// One table-of-contents entry: the relative depth among the distinct
/// levels of the document, the raw level, the anchor id and the plain
/// title.
pub struct Toc {
    pub depth: usize,
    pub level: usize,
    pub id: Option<String>,
    pub title: String,
}

/// The mathematical value of a table-of-contents entry.
pub struct TocV {
    pub depth: int,
    pub level: int,
    pub id: Option<Seq<char>>,
    pub title: Seq<char>,
}

impl View for Toc {
    type V = TocV;

    open spec fn view(&self) -> TocV {
        TocV {
            depth: self.depth as int,
            level: self.level as int,
            id: match self.id {
                Some(i) => Some(i@),
                None => None,
            },
            title: self.title@,
        }
    }
}

/// A recorded heading: its table-of-contents entry and the range of
/// buffered inner tokens (between its start and end tokens).
pub struct Heading {
    pub toc: Toc,
    pub from: usize,
    pub to: usize,
}

/// The mathematical value of a recorded heading.
pub struct HeadingV {
    pub toc: TocV,
    pub from: int,
    pub to: int,
}

impl View for Heading {
    type V = HeadingV;

    open spec fn view(&self) -> HeadingV {
        HeadingV { toc: self.toc@, from: self.from as int, to: self.to as int }
    }
}

// ---------------------------------------------------------------------
// Trusted pulldown-cmark boundary.
// ---------------------------------------------------------------------
/// What parsing a Markdown text classifies to: a function of the text
/// alone.
pub uninterp spec fn md_tokens_of(s: Seq<char>) -> Seq<MdTokenV>;

/// Every heading level a parse yields lies in `1..=6`, as
/// `pulldown_cmark::HeadingLevel` has only those variants.
pub open spec fn tokens_wf(toks: Seq<MdTokenV>) -> bool {
    forall|k: int|
        0 <= k < toks.len() ==> (match #[trigger] toks[k] {
            MdTokenV::HeadingStart { level, .. } => 1 <= level <= 6,
            _ => true,
        })
}

/// Relies on `pulldown_cmark::Parser::new_ext` with all extensions
/// enabled: parsing is a deterministic function of the text; each event
/// is kept (for pass-through rendering) beside its classification, and
/// heading levels lie in `1..=6` (`HeadingLevel` has no others).
#[verifier::external_body]
fn parse_markdown(markdown: &str) -> (r: (Vec<Event<'static>>, Vec<MdToken>))
    ensures
        r.1@.map_values(|t: MdToken| t@) == md_tokens_of(markdown@),
        r.0@.len() == r.1@.len(),
        tokens_wf(r.1@.map_values(|t: MdToken| t@)),
{
    let events: Vec<Event<'static>> = pulldown_cmark::Parser::new_ext(
        markdown,
        pulldown_cmark::Options::all(),
    ).map(|e| e.into_static()).collect();
    let tokens: Vec<MdToken> = events.iter().map(classify_event).collect();
    (events, tokens)
}

/// Relies on the shapes of `pulldown_cmark::Event`: one arm per
/// variant, moving field values into the library's token.
#[verifier::external_body]
fn classify_event(e: &Event<'static>) -> (t: MdToken) {
    match e {
        Event::Start(_) => classify_start(e),
        Event::End(pulldown_cmark::TagEnd::Heading(_)) => MdToken::HeadingEnd,
        Event::End(pulldown_cmark::TagEnd::Image) => MdToken::ImageEnd,
        Event::End(pulldown_cmark::TagEnd::CodeBlock) => MdToken::FenceEnd,
        Event::End(_) => MdToken::Other,
        Event::Text(s) => MdToken::Text(s.to_string()),
        Event::Code(s) => MdToken::Code(s.to_string()),
        _ => MdToken::Other,
    }
}

/// Relies on the shapes of `pulldown_cmark::Tag`: one arm per handled
/// variant, moving field values into the library's token.
#[verifier::external_body]
fn classify_start(e: &Event<'static>) -> (t: MdToken) {
    match e {
        Event::Start(pulldown_cmark::Tag::Heading { level, id, .. }) => MdToken::HeadingStart {
            level: *level as u8,
            id: id.as_ref().map(|i| i.to_string()),
        },
        Event::Start(pulldown_cmark::Tag::Image { dest_url, title, .. }) => MdToken::ImageStart {
            dest: dest_url.to_string(),
            title: title.to_string(),
        },
        Event::Start(pulldown_cmark::Tag::CodeBlock(pulldown_cmark::CodeBlockKind::Fenced(f))) => {
            MdToken::FenceStart { info: f.to_string() }
        },
        _ => MdToken::Other,
    }
}

/// Relies on `pulldown_cmark::html::push_html` over the events of a
/// heading's inner range: renders the buffered fragment.
#[verifier::external_body]
fn render_fragment(events: &Vec<Event<'static>>, from: usize, to: usize) -> (r: String)
    requires
        from <= to <= events@.len(),
{
    let mut out = String::new();
    pulldown_cmark::html::push_html(&mut out, events[from..to].iter().cloned());
    out
}

/// Relies on `pulldown_cmark::html::push_html`: renders the planned
/// stream — pass-through events by index, injected fragments as HTML
/// events.
#[verifier::external_body]
fn emit_html(events: &Vec<Event<'static>>, plan: &Vec<OutItem>) -> (r: String)
    requires
        forall|k: int|
            0 <= k < plan@.len() ==> (#[trigger] plan@[k] matches OutItem::Pass(i) ==> (i as int)
                < events@.len()),
{
    let it = plan.iter().map(|o| match o {
        OutItem::Pass(i) => events[*i].clone(),
        OutItem::Html(h) => Event::Html(h.clone().into()),
    });
    let mut out = String::new();
    pulldown_cmark::html::push_html(&mut out, it);
    out
}

// ---------------------------------------------------------------------
// The specification: a deterministic fold over the tokens.
// ---------------------------------------------------------------------
/// One item of the output plan. Heading and highlight slots stand for
/// values filled in by the trusted renderers: the fragment index names
/// the heading's inner HTML, the input index names the highlighted
/// block.
pub enum PlanItemV {
    Pass(int),
    Html(Seq<char>),
    HeadingSlot { frag: int, level: u8, id: Seq<char> },
    HighlightSlot { idx: int },
}

/// One item of the realized output: a pass-through event index or an
/// injected HTML fragment.
pub enum OutItem {
    Pass(usize),
    Html(String),
}

/// The mathematical value of a realized output item.
pub enum OutItemV {
    Pass(int),
    Html(Seq<char>),
}

impl View for OutItem {
    type V = OutItemV;

    open spec fn view(&self) -> OutItemV {
        match self {
            OutItem::Pass(i) => OutItemV::Pass(*i as int),
            OutItem::Html(h) => OutItemV::Html(h@),
        }
    }
}

/// The heading being captured: its level, explicit id, accumulated
/// plain-text title, and the index of its start token.
pub struct HeadAccV {
    pub level: u8,
    pub id: Option<Seq<char>>,
    pub title: Seq<char>,
    pub start: int,
}

/// The fixed inputs of one render pass.
pub struct TdEnv {
    pub highlight_code: bool,
    pub theme: Seq<char>,
    pub rss: bool,
    pub base: CacheModel,
}

/// The transducer state, which is also its result.
pub struct TdRun {
    pub fence: Option<Seq<char>>,
    pub in_image: bool,
    pub image_alt: Option<Seq<char>>,
    pub heading: Option<HeadAccV>,
    pub levels: Seq<u8>,
    pub headings: Seq<HeadingV>,
    pub new_tasks: Seq<Seq<char>>,
    pub plan: Seq<PlanItemV>,
    pub hl_inputs: Seq<(Seq<char>, Seq<char>)>,
    pub err: Option<RenderErrorV>,
}

/// The initial state.
pub open spec fn td_init() -> TdRun {
    TdRun {
        fence: None,
        in_image: false,
        image_alt: None,
        heading: None,
        levels: Seq::empty(),
        headings: Seq::empty(),
        new_tasks: Seq::empty(),
        plan: Seq::empty(),
        hl_inputs: Seq::empty(),
        err: None,
    }
}

/// The derived anchor id: the lowercased title with blanks replaced by
/// hyphens.
pub open spec fn hyphenate(s: Seq<char>) -> Seq<char> {
    s.map_values(
        |c: char|
            if c == ' ' {
                '-'
            } else {
                c
            },
    )
}

pub open spec fn derive_id(title: Seq<char>) -> Seq<char> {
    hyphenate(lower_of(title))
}

/// Insert a level into the ordered set of distinct levels.
pub open spec fn insert_level(levels: Seq<u8>, l: u8) -> Seq<u8>
    decreases levels.len(),
{
    if levels.len() == 0 {
        seq![l]
    } else if levels[0] == l {
        levels
    } else if l < levels[0] {
        seq![l] + levels
    } else {
        seq![levels[0]] + insert_level(levels.skip(1), l)
    }
}

/// The rank of a level among the distinct levels.
pub open spec fn level_index(levels: Seq<u8>, l: u8) -> int
    decreases levels.len(),
{
    if levels.len() == 0 {
        0
    } else if levels[0] == l {
        0
    } else {
        1 + level_index(levels.skip(1), l)
    }
}

/// The task cells after this pass's new fetches are registered.
pub open spec fn tasks_after(base: CacheModel, new_tasks: Seq<Seq<char>>) -> Seq<
    (Seq<char>, Option<PreviewEventV>),
> {
    base.tasks + new_tasks.map_values(|u: Seq<char>| (u, Option::<PreviewEventV>::None))
}

/// The visitor's answer for an inline code span.
pub open spec fn vis_code<V: MarkdownVisitor>(v: Option<V>, code: Seq<char>) -> Option<
    Seq<char>,
> {
    match v {
        Some(vis) => vis.code_spec(code),
        None => None,
    }
}

/// The visitor's answer for an unknown fenced block.
pub open spec fn vis_block<V: MarkdownVisitor>(
    v: Option<V>,
    f: crate::code_blocks::FencedV,
    content: Seq<char>,
) -> Option<Seq<char>> {
    match v {
        Some(vis) => vis.block_spec(f, content),
        None => None,
    }
}

/// Dispatch a text run inside an open fenced block.
pub open spec fn td_block<V: MarkdownVisitor>(
    st: TdRun,
    info: Seq<char>,
    s: Seq<char>,
    env: TdEnv,
    v: Option<V>,
) -> TdRun {
    let f = fenced_of(info);
    if f.name == spec_url_preview_name() && env.rss {
        st
    } else if f.name == spec_url_preview_name() {
        let url = crate::text::trim_spec(s);
        match assoc_find(env.base.previews, url) {
            Some(p) => TdRun { plan: st.plan.push(PlanItemV::Html(preview_card_spec(url, p))), ..st },
            None => {
                if assoc_find(tasks_after(env.base, st.new_tasks), url) is Some {
                    TdRun { plan: st.plan.push(PlanItemV::Html(preview_pending_spec(url))), ..st }
                } else {
                    TdRun {
                        plan: st.plan.push(PlanItemV::Html(preview_pending_spec(url))),
                        new_tasks: st.new_tasks.push(url),
                        ..st
                    }
                }
            },
        }
    } else if f.name == spec_callout_name() {
        if callout_opts_ok(f.options) {
            TdRun {
                plan: st.plan.push(
                    PlanItemV::Html(callout_html_spec(callout_kind_of(f.options), s)),
                ),
                ..st
            }
        } else {
            TdRun { err: Some(RenderErrorV::Parse("callout"@)), ..st }
        }
    } else if f.name == spec_quote_name() {
        let q = quote_of(s);
        if q.content.len() > 0 {
            TdRun {
                plan: st.plan.push(
                    PlanItemV::Html(
                        crate::templates::quote_html_spec(q.avatar, q.author, q.bio, q.content),
                    ),
                ),
                ..st
            }
        } else {
            TdRun { err: Some(RenderErrorV::Parse("quote"@)), ..st }
        }
    } else {
        match vis_block(v, f, s) {
            Some(html) => TdRun { plan: st.plan.push(PlanItemV::Html(html)), ..st },
            None => {
                if env.highlight_code {
                    if crate::highlight::highlight_ok_of(f.name, env.theme, s) {
                        TdRun {
                            plan: st.plan.push(
                                PlanItemV::HighlightSlot { idx: st.hl_inputs.len() as int },
                            ),
                            hl_inputs: st.hl_inputs.push((f.name, s)),
                            ..st
                        }
                    } else {
                        TdRun { err: Some(RenderErrorV::Config(env.theme)), ..st }
                    }
                } else {
                    TdRun { plan: st.plan.push(PlanItemV::Html(pre_block_spec(s))), ..st }
                }
            },
        }
    }
}

/// One step of the transducer. An open heading buffers every child
/// token until its end; an image captures the following text run as
/// the next alt text; a fenced block routes its text runs to the block
/// dispatcher; everything else passes through. After an error the
/// state is frozen.
pub open spec fn td_step<V: MarkdownVisitor>(
    st: TdRun,
    tok: MdTokenV,
    idx: int,
    env: TdEnv,
    v: Option<V>,
) -> TdRun {
    if st.err is Some {
        st
    } else {
        match tok {
            MdTokenV::HeadingStart { level, id } => {
                if st.heading is Some {
                    st
                } else {
                    TdRun {
                        heading: Some(
                            HeadAccV { level, id, title: Seq::empty(), start: idx },
                        ),
                        ..st
                    }
                }
            },
            MdTokenV::HeadingEnd => {
                match st.heading {
                    Some(h) => {
                        let id_final = match h.id {
                            Some(i) => i,
                            None => derive_id(h.title),
                        };
                        TdRun {
                            heading: None,
                            levels: insert_level(st.levels, h.level),
                            headings: st.headings.push(
                                HeadingV {
                                    toc: TocV {
                                        depth: h.level as int,
                                        level: h.level as int,
                                        id: Some(id_final),
                                        title: h.title,
                                    },
                                    from: h.start + 1,
                                    to: idx,
                                },
                            ),
                            plan: st.plan.push(
                                PlanItemV::HeadingSlot {
                                    frag: st.headings.len() as int,
                                    level: h.level,
                                    id: id_final,
                                },
                            ),
                            ..st
                        }
                    },
                    None => st,
                }
            },
            MdTokenV::ImageStart { dest, title } => {
                if st.heading is Some {
                    st
                } else {
                    let alt = match st.image_alt {
                        Some(a) => a,
                        None => Seq::empty(),
                    };
                    TdRun {
                        in_image: true,
                        image_alt: None,
                        plan: st.plan.push(PlanItemV::Html(image_html_spec(dest, alt, title))),
                        ..st
                    }
                }
            },
            MdTokenV::ImageEnd => {
                if st.heading is Some {
                    st
                } else {
                    TdRun { in_image: false, ..st }
                }
            },
            MdTokenV::FenceStart { info } => {
                if st.heading is Some {
                    st
                } else {
                    TdRun { fence: Some(info), ..st }
                }
            },
            MdTokenV::FenceEnd => {
                if st.heading is Some {
                    st
                } else {
                    TdRun { fence: None, ..st }
                }
            },
            MdTokenV::Text(s) => {
                match st.heading {
                    Some(h) => TdRun {
                        heading: Some(HeadAccV { title: h.title + s, ..h }),
                        ..st
                    },
                    None => {
                        if st.in_image {
                            TdRun { image_alt: Some(s), ..st }
                        } else {
                            match st.fence {
                                Some(info) => td_block(st, info, s, env, v),
                                None => TdRun { plan: st.plan.push(PlanItemV::Pass(idx)), ..st },
                            }
                        }
                    },
                }
            },
            MdTokenV::Code(s) => {
                match st.heading {
                    Some(h) => TdRun {
                        heading: Some(HeadAccV { title: h.title + s, ..h }),
                        ..st
                    },
                    None => {
                        match vis_code(v, s) {
                            Some(html) => TdRun {
                                plan: st.plan.push(PlanItemV::Html(html)),
                                ..st
                            },
                            None => TdRun { plan: st.plan.push(PlanItemV::Pass(idx)), ..st },
                        }
                    },
                }
            },
            MdTokenV::Other => {
                if st.heading is Some {
                    st
                } else {
                    TdRun { plan: st.plan.push(PlanItemV::Pass(idx)), ..st }
                }
            },
        }
    }
}

/// The state after the first `n` tokens.
pub open spec fn td_run_to<V: MarkdownVisitor>(
    toks: Seq<MdTokenV>,
    n: int,
    env: TdEnv,
    v: Option<V>,
) -> TdRun
    decreases n when 0 <= n <= toks.len()
{
    if n <= 0 {
        td_init()
    } else {
        td_step(td_run_to(toks, n - 1, env, v), toks[n - 1], n - 1, env, v)
    }
}

/// The state after the whole stream.
pub open spec fn td_run<V: MarkdownVisitor>(toks: Seq<MdTokenV>, env: TdEnv, v: Option<V>) -> TdRun {
    td_run_to(toks, toks.len() as int, env, v)
}

/// Fill in a plan item: heading slots with the fragment oracle,
/// highlight slots with the named highlighter result.
pub open spec fn realize_item(
    it: PlanItemV,
    frags: Seq<Seq<char>>,
    hl_inputs: Seq<(Seq<char>, Seq<char>)>,
    theme: Seq<char>,
) -> OutItemV {
    match it {
        PlanItemV::Pass(i) => OutItemV::Pass(i),
        PlanItemV::Html(s) => OutItemV::Html(s),
        PlanItemV::HeadingSlot { frag, level, id } => OutItemV::Html(
            heading_html_spec(frags[frag], level as int, id),
        ),
        PlanItemV::HighlightSlot { idx } => OutItemV::Html(
            highlighted_of(hl_inputs[idx].0, theme, hl_inputs[idx].1),
        ),
    }
}

pub open spec fn realize_plan(
    plan: Seq<PlanItemV>,
    frags: Seq<Seq<char>>,
    hl_inputs: Seq<(Seq<char>, Seq<char>)>,
    theme: Seq<char>,
) -> Seq<OutItemV> {
    plan.map_values(|it: PlanItemV| realize_item(it, frags, hl_inputs, theme))
}

/// Every slot in the plan points below the given counts.
pub open spec fn plan_wf(plan: Seq<PlanItemV>, frag_count: int, hl_count: int) -> bool {
    forall|k: int|
        0 <= k < plan.len() ==> (match #[trigger] plan[k] {
            PlanItemV::HeadingSlot { frag, .. } => 0 <= frag < frag_count,
            PlanItemV::HighlightSlot { idx } => 0 <= idx < hl_count,
            _ => true,
        })
}

/// Extending the plan by one item extends its realization by the
/// item's realization, as long as earlier slots keep their referents.
pub proof fn lemma_plan_step(
    exec_pre: Seq<OutItemV>,
    exec_post: Seq<OutItemV>,
    spec_pre: Seq<PlanItemV>,
    it_spec: PlanItemV,
    it_val: OutItemV,
    frags1: Seq<Seq<char>>,
    frags2: Seq<Seq<char>>,
    hl1: Seq<(Seq<char>, Seq<char>)>,
    hl2: Seq<(Seq<char>, Seq<char>)>,
    theme: Seq<char>,
)
    requires
        exec_pre == realize_plan(spec_pre, frags1, hl1, theme),
        exec_post == exec_pre.push(it_val),
        it_val == realize_item(it_spec, frags2, hl2, theme),
        plan_wf(spec_pre, frags1.len() as int, hl1.len() as int),
        frags1.len() <= frags2.len(),
        forall|j: int| 0 <= j < frags1.len() ==> frags2[j] == frags1[j],
        hl1.len() <= hl2.len(),
        forall|j: int| 0 <= j < hl1.len() ==> hl2[j] == hl1[j],
        (match it_spec {
            PlanItemV::HeadingSlot { frag, .. } => 0 <= frag < frags2.len(),
            PlanItemV::HighlightSlot { idx } => 0 <= idx < hl2.len(),
            _ => true,
        }),
    ensures
        exec_post == realize_plan(spec_pre.push(it_spec), frags2, hl2, theme),
        plan_wf(spec_pre.push(it_spec), frags2.len() as int, hl2.len() as int),
{
    let rhs = realize_plan(spec_pre.push(it_spec), frags2, hl2, theme);
    assert forall|k: int| 0 <= k < rhs.len() implies exec_post[k] == rhs[k] by {
        assert(rhs[k] == realize_item(spec_pre.push(it_spec)[k], frags2, hl2, theme));
        if k < spec_pre.len() {
            assert(spec_pre.push(it_spec)[k] == spec_pre[k]);
            assert(exec_pre[k] == realize_item(spec_pre[k], frags1, hl1, theme));
            match spec_pre[k] {
                PlanItemV::HeadingSlot { frag, .. } => {
                    assert(frags2[frag] == frags1[frag]);
                },
                PlanItemV::HighlightSlot { idx } => {
                    assert(hl2[idx] == hl1[idx]);
                },
                _ => {},
            }
        } else {
            assert(spec_pre.push(it_spec)[k] == it_spec);
        }
    }
    assert(exec_post =~= rhs);
    assert forall|k: int|
        0 <= k < spec_pre.push(it_spec).len() implies (match #[trigger] spec_pre.push(it_spec)[k] {
        PlanItemV::HeadingSlot { frag, .. } => 0 <= frag < frags2.len(),
        PlanItemV::HighlightSlot { idx } => 0 <= idx < hl2.len(),
        _ => true,
    }) by {
        if k < spec_pre.len() {
            assert(spec_pre.push(it_spec)[k] == spec_pre[k]);
        } else {
            assert(spec_pre.push(it_spec)[k] == it_spec);
        }
    }
}

/// Once the transducer errs, the rest of the stream changes nothing.
pub proof fn lemma_td_frozen<V: MarkdownVisitor>(
    toks: Seq<MdTokenV>,
    i: int,
    j: int,
    env: TdEnv,
    v: Option<V>,
)
    requires
        0 <= i <= j <= toks.len(),
        td_run_to(toks, i, env, v).err is Some,
    ensures
        td_run_to(toks, j, env, v) == td_run_to(toks, i, env, v),
    decreases j - i,
{
    if j > i {
        lemma_td_frozen(toks, i, j - 1, env, v);
    }
}

// ---------------------------------------------------------------------
// The executable transducer.
// ---------------------------------------------------------------------
/// The captured heading during a pass.
pub struct HeadAcc {
    pub level: u8,
    pub id: Option<String>,
    pub title: String,
    pub start: usize,
}

impl View for HeadAcc {
    type V = HeadAccV;

    open spec fn view(&self) -> HeadAccV {
        HeadAccV {
            level: self.level,
            id: match self.id {
                Some(i) => Some(i@),
                None => None,
            },
            title: self.title@,
            start: self.start as int,
        }
    }
}

/// The view of an optional owned string.
pub open spec fn ostr(o: Option<String>) -> Option<Seq<char>> {
    match o {
        Some(s) => Some(s@),
        None => None,
    }
}

/// The view of an optional heading accumulator.
pub open spec fn ohead(o: Option<HeadAcc>) -> Option<HeadAccV> {
    match o {
        Some(h) => Some(h@),
        None => None,
    }
}

/// What one pass of the transducer yields: the output plan, the
/// recorded headings (depths not yet normalized) and the distinct
/// levels seen.
pub struct TransduceOut {
    pub plan: Vec<OutItem>,
    pub headings: Vec<Heading>,
    pub levels: Vec<u8>,
}

/// Insert into the ordered distinct levels.
fn insert_level_exec(levels: Vec<u8>, l: u8) -> (r: Vec<u8>)
    ensures
        r@ == insert_level(levels@, l),
    decreases levels.len(),
{
    if levels.len() == 0 {
        let mut r = levels;
        r.push(l);
        proof {
            assert(r@ =~= seq![l]);
        }
        return r;
    }
    let first = levels[0];
    if first == l {
        return levels;
    }
    if l < first {
        let mut r = levels;
        r.insert(0, l);
        proof {
            assert(r@ =~= seq![l] + r@.skip(1));
        }
        return r;
    }
    let mut v2 = levels;
    let ghost before = v2@;
    v2.remove(0);
    proof {
        assert(v2@ =~= before.skip(1));
    }
    let rest = insert_level_exec(v2, l);
    let mut r = rest;
    r.insert(0, first);
    proof {
        assert(r@ =~= seq![first] + r@.skip(1));
    }
    r
}

/// The rank of a level among the distinct levels.
fn level_index_exec(levels: &Vec<u8>, l: u8) -> (r: usize)
    ensures
        r as int == level_index(levels@, l) || (r == levels@.len() && level_index(levels@, l)
            >= levels@.len()),
        r <= levels@.len(),
    decreases levels.len(),
{
    let n = levels.len();
    let mut i: usize = 0;
    proof {
        assert(levels@.skip(0) =~= levels@);
    }
    loop
        invariant
            i <= n,
            n == levels@.len(),
            level_index(levels@, l) == i + level_index(levels@.skip(i as int), l),
        decreases n - i,
    {
        if i == n {
            proof {
                assert(levels@.skip(n as int).len() == 0);
            }
            return i;
        }
        proof {
            assert(levels@.skip(i as int)[0] == levels@[i as int]);
            assert(levels@.skip(i as int).skip(1) =~= levels@.skip(i + 1));
        }
        if levels[i] == l {
            return i;
        }
        i = i + 1;
    }
}

/// Replace blanks with hyphens.
fn hyphenate_exec(s: &str) -> (r: String)
    ensures
        r@ == hyphenate(s@),
{
    let v = crate::text::string_to_chars(s);
    let n = v.len();
    let mut out: Vec<char> = Vec::new();
    proof {
        assert(out@ =~= hyphenate(s@.take(0)));
    }
    let mut i: usize = 0;
    while i < n
        invariant
            i <= n,
            n == v.len(),
            v@ == s@,
            out@ == hyphenate(s@.take(i as int)),
        decreases n - i,
    {
        let c = v[i];
        if c == ' ' {
            out.push('-');
        } else {
            out.push(c);
        }
        proof {
            assert(out@ =~= hyphenate(s@.take(i + 1)));
        }
        i = i + 1;
    }
    proof {
        assert(s@.take(n as int) =~= s@);
    }
    crate::text::chars_to_string(&out)
}

/// The derived anchor id of a heading title.
fn derive_id_exec(title: &str) -> (r: String)
    ensures
        r@ == derive_id(title@),
{
    let lower = crate::text::lowercase(title);
    hyphenate_exec(lower.as_str())
}

/// Dispatch a text run inside an open fenced block: render the
/// built-in kinds, offer the block to the visitor, or highlight it.
/// Exactly mirrors [`td_block`].
fn transduce_block<V: MarkdownVisitor>(
    info: &String,
    s: &String,
    config: &MarkdownConfig,
    rss: bool,
    visitor: &Option<V>,
    data: &mut GenkitData,
    plan: &mut Vec<OutItem>,
    Ghost(run0): Ghost<TdRun>,
    Ghost(env): Ghost<TdEnv>,
    Ghost(frags): Ghost<Seq<Seq<char>>>,
) -> (r: Result<(), RenderError>)
    requires
        env.highlight_code == config.highlight_code,
        env.theme == config.highlight_theme@,
        env.rss == rss,
        old(data).wf(),
        old(data).model().previews == env.base.previews,
        old(data).model().tasks == tasks_after(env.base, run0.new_tasks),
        old(data).model().dirty == env.base.dirty,
        old(plan)@.map_values(|o: OutItem| o@) == realize_plan(
            run0.plan,
            frags,
            run0.hl_inputs,
            env.theme,
        ),
        plan_wf(run0.plan, frags.len() as int, run0.hl_inputs.len() as int),
        run0.err is None,
    ensures
        final(data).wf(),
        final(data).model().previews == env.base.previews,
        final(data).model().dirty == env.base.dirty,
        final(data).spec_config() == old(data).spec_config(),
        forall|k: int|
            old(plan)@.len() <= k < final(plan)@.len() ==> !(#[trigger] final(plan)@[k] matches
            OutItem::Pass(_)),
        forall|k: int| 0 <= k < old(plan)@.len() ==> final(plan)@[k] == old(plan)@[k],
        ({
            let run1 = td_block(run0, info@, s@, env, *visitor);
            match r {
                Ok(()) => {
                    &&& run1.err is None
                    &&& final(plan)@.map_values(|o: OutItem| o@) == realize_plan(
                        run1.plan,
                        frags,
                        run1.hl_inputs,
                        env.theme,
                    )
                    &&& plan_wf(run1.plan, frags.len() as int, run1.hl_inputs.len() as int)
                    &&& final(data).model().tasks == tasks_after(env.base, run1.new_tasks)
                },
                Err(e) => {
                    &&& run1.err == Some(e@)
                    &&& run1.new_tasks == run0.new_tasks
                    &&& final(data).model().tasks == tasks_after(env.base, run1.new_tasks)
                },
            }
        }),
{
    let ghost run1 = td_block(run0, info@, s@, env, *visitor);
    let f = Fenced::parse(info.as_str());
    let is_url_preview = crate::text::str_eq(f.name.as_str(), "url-preview");
    if is_url_preview && rss {
        return Ok(());
    }
    if is_url_preview {
        let url = crate::text::trim_str(s.as_str());
        match data.get_preview(url.as_str()) {
            Some(p) => {
                let html = crate::code_blocks::preview_card(url.as_str(), &p);
                let ghost html_v = html@;
                plan.push(OutItem::Html(html));
                proof {
                    assert(f@ == fenced_of(info@));
                    assert(f@.name == spec_url_preview_name());
                    assert(url@ == crate::text::trim_spec(s@));
                    assert(assoc_find(env.base.previews, url@) == Some(p@));
                    assert(run1.plan == run0.plan.push(
                        PlanItemV::Html(preview_card_spec(url@, p@)),
                    ));
                    assert(run1.hl_inputs == run0.hl_inputs);
                    assert(html_v == preview_card_spec(url@, p@));
                    assert(plan@.map_values(|o: OutItem| o@) =~= old(plan)@.map_values(
                        |o: OutItem| o@,
                    ).push(OutItemV::Html(html_v)));
                    lemma_plan_step(
                        old(plan)@.map_values(|o: OutItem| o@),
                        plan@.map_values(|o: OutItem| o@),
                        run0.plan,
                        PlanItemV::Html(preview_card_spec(url@, p@)),
                        OutItemV::Html(html_v),
                        frags,
                        frags,
                        run0.hl_inputs,
                        run0.hl_inputs,
                        env.theme,
                    );
                }
                return Ok(());
            },
            None => {
                let ghost pre_model = data.model();
                let (_is_new, _obs) = data.preview_url(url.as_str());
                let html = crate::code_blocks::preview_pending(url.as_str());
                let ghost html_v = html@;
                plan.push(OutItem::Html(html));
                proof {
                    if crate::data::request_is_new(pre_model, url@) {
                        assert(data.model().tasks =~= tasks_after(
                            env.base,
                            run0.new_tasks.push(url@),
                        ));
                        assert(run1.new_tasks == run0.new_tasks.push(url@));
                    } else {
                        assert(run1.new_tasks == run0.new_tasks);
                    }
                    assert(run1.plan == run0.plan.push(
                        PlanItemV::Html(preview_pending_spec(url@)),
                    ));
                    assert(run1.hl_inputs == run0.hl_inputs);
                    assert(html_v == preview_pending_spec(url@));
                    assert(plan@.map_values(|o: OutItem| o@) =~= old(plan)@.map_values(
                        |o: OutItem| o@,
                    ).push(OutItemV::Html(html_v)));
                    lemma_plan_step(
                        old(plan)@.map_values(|o: OutItem| o@),
                        plan@.map_values(|o: OutItem| o@),
                        run0.plan,
                        PlanItemV::Html(preview_pending_spec(url@)),
                        OutItemV::Html(html_v),
                        frags,
                        frags,
                        run0.hl_inputs,
                        run0.hl_inputs,
                        env.theme,
                    );
                }
                return Ok(());
            },
        }
    }
    if crate::text::str_eq(f.name.as_str(), "callout") {
        match crate::code_blocks::CalloutBlock::new(&f.options, s.as_str()) {
            Ok(c) => {
                let html = crate::templates::render_callout_template(
                    c.kind.as_str(),
                    c.body.as_str(),
                );
                let ghost html_v = html@;
                plan.push(OutItem::Html(html));
                proof {
                    assert(run1.plan == run0.plan.push(
                        PlanItemV::Html(
                            callout_html_spec(callout_kind_of(fenced_of(info@).options), s@),
                        ),
                    ));
                    assert(run1.hl_inputs == run0.hl_inputs);
                    assert(html_v == callout_html_spec(callout_kind_of(fenced_of(info@).options), s@));
                    assert(plan@.map_values(|o: OutItem| o@) =~= old(plan)@.map_values(
                        |o: OutItem| o@,
                    ).push(OutItemV::Html(html_v)));
                    lemma_plan_step(
                        old(plan)@.map_values(|o: OutItem| o@),
                        plan@.map_values(|o: OutItem| o@),
                        run0.plan,
                        PlanItemV::Html(
                            callout_html_spec(callout_kind_of(fenced_of(info@).options), s@),
                        ),
                        OutItemV::Html(html_v),
                        frags,
                        frags,
                        run0.hl_inputs,
                        run0.hl_inputs,
                        env.theme,
                    );
                }
                return Ok(());
            },
            Err(e) => {
                return Err(e);
            },
        }
    }
    if crate::text::str_eq(f.name.as_str(), "quote") {
        match crate::code_blocks::QuoteBlock::parse(s.as_str()) {
            Ok(q) => {
                let html = crate::templates::render_quote_template(&q);
                let ghost html_v = html@;
                plan.push(OutItem::Html(html));
                proof {
                    let ghost qv = quote_of(s@);
                    assert(run1.plan == run0.plan.push(
                        PlanItemV::Html(
                            crate::templates::quote_html_spec(qv.avatar, qv.author, qv.bio, qv.content),
                        ),
                    ));
                    assert(run1.hl_inputs == run0.hl_inputs);
                    assert(html_v == crate::templates::quote_html_spec(qv.avatar, qv.author, qv.bio, qv.content));
                    assert(plan@.map_values(|o: OutItem| o@) =~= old(plan)@.map_values(
                        |o: OutItem| o@,
                    ).push(OutItemV::Html(html_v)));
                    lemma_plan_step(
                        old(plan)@.map_values(|o: OutItem| o@),
                        plan@.map_values(|o: OutItem| o@),
                        run0.plan,
                        PlanItemV::Html(
                            crate::templates::quote_html_spec(qv.avatar, qv.author, qv.bio, qv.content),
                        ),
                        OutItemV::Html(html_v),
                        frags,
                        frags,
                        run0.hl_inputs,
                        run0.hl_inputs,
                        env.theme,
                    );
                }
                return Ok(());
            },
            Err(e) => {
                return Err(e);
            },
        }
    }
    let answered: Option<String> = match visitor {
        Some(vis) => vis.visit_custom_block(&f, s.as_str()),
        None => None,
    };
    match answered {
        Some(html) => {
            let ghost html_v = html@;
            plan.push(OutItem::Html(html));
            proof {
                assert(vis_block(*visitor, fenced_of(info@), s@) == Some(html_v));
                assert(run1.plan == run0.plan.push(PlanItemV::Html(html_v)));
                assert(run1.hl_inputs == run0.hl_inputs);
                assert(plan@.map_values(|o: OutItem| o@) =~= old(plan)@.map_values(
                    |o: OutItem| o@,
                ).push(OutItemV::Html(html_v)));
                lemma_plan_step(
                    old(plan)@.map_values(|o: OutItem| o@),
                    plan@.map_values(|o: OutItem| o@),
                    run0.plan,
                    PlanItemV::Html(html_v),
                    OutItemV::Html(html_v),
                    frags,
                    frags,
                    run0.hl_inputs,
                    run0.hl_inputs,
                    env.theme,
                );
            }
            Ok(())
        },
        None => {
            if config.highlight_code {
                match crate::highlight::highlight_syntax(
                    f.name.as_str(),
                    config.highlight_theme.as_str(),
                    s.as_str(),
                ) {
                    Some(h) => {
                        let ghost h_v = h@;
                        plan.push(OutItem::Html(h));
                        proof {
                            assert(crate::highlight::highlight_ok_of(f@.name, env.theme, s@));
                            assert(run1.hl_inputs == run0.hl_inputs.push((f@.name, s@)));
                            assert(run1.plan == run0.plan.push(
                                PlanItemV::HighlightSlot { idx: run0.hl_inputs.len() as int },
                            ));
                            assert(h_v == highlighted_of(f@.name, env.theme, s@));
                            assert(run1.hl_inputs[run0.hl_inputs.len() as int] == (f@.name, s@));
                            assert(realize_item(
                                PlanItemV::HighlightSlot { idx: run0.hl_inputs.len() as int },
                                frags,
                                run1.hl_inputs,
                                env.theme,
                            ) == OutItemV::Html(h_v));
                            assert(plan@.map_values(|o: OutItem| o@) =~= old(plan)@.map_values(
                                |o: OutItem| o@,
                            ).push(OutItemV::Html(h_v)));
                            lemma_plan_step(
                                old(plan)@.map_values(|o: OutItem| o@),
                                plan@.map_values(|o: OutItem| o@),
                                run0.plan,
                                PlanItemV::HighlightSlot { idx: run0.hl_inputs.len() as int },
                                OutItemV::Html(h_v),
                                frags,
                                frags,
                                run0.hl_inputs,
                                run1.hl_inputs,
                                env.theme,
                            );
                        }
                        Ok(())
                    },
                    None => {
                        let e = RenderError::Config(config.highlight_theme.clone());
                        proof {
                            assert(!crate::highlight::highlight_ok_of(f@.name, env.theme, s@));
                            assert(run1.err == Some(RenderErrorV::Config(env.theme)));
                            assert(e@ == RenderErrorV::Config(env.theme));
                        }
                        Err(e)
                    },
                }
            } else {
                let html = crate::code_blocks::pre_block(s.as_str());
                let ghost html_v = html@;
                plan.push(OutItem::Html(html));
                proof {
                    assert(run1.plan == run0.plan.push(PlanItemV::Html(pre_block_spec(s@))));
                    assert(run1.hl_inputs == run0.hl_inputs);
                    assert(html_v == pre_block_spec(s@));
                    assert(plan@.map_values(|o: OutItem| o@) =~= old(plan)@.map_values(
                        |o: OutItem| o@,
                    ).push(OutItemV::Html(html_v)));
                    lemma_plan_step(
                        old(plan)@.map_values(|o: OutItem| o@),
                        plan@.map_values(|o: OutItem| o@),
                        run0.plan,
                        PlanItemV::Html(pre_block_spec(s@)),
                        OutItemV::Html(html_v),
                        frags,
                        frags,
                        run0.hl_inputs,
                        run0.hl_inputs,
                        env.theme,
                    );
                }
                Ok(())
            }
        },
    }
}

/// Run the transducer over a classified token stream.
///
/// The result and the cache transition are exactly those of the
/// specification fold [`td_run`]: the plan equals the specification's
/// plan with each heading slot filled by some fragment text (the one
/// value the trusted fragment renderer leaves open) and each highlight
/// slot filled by the named highlighter result; the recorded headings,
/// levels and newly registered fetch tasks are exact. A malformed
/// built-in block aborts with the specification's error; a failed
/// highlight aborts with a configuration error naming the theme.
pub fn transduce<V: MarkdownVisitor>(
    tokens: &Vec<MdToken>,
    events: &Vec<Event<'static>>,
    config: &MarkdownConfig,
    rss: bool,
    visitor: &Option<V>,
    data: &mut GenkitData,
) -> (r: Result<TransduceOut, RenderError>)
    requires
        tokens@.len() == events@.len(),
        tokens_wf(tokens@.map_values(|t: MdToken| t@)),
        old(data).wf(),
    ensures
        final(data).wf(),
        final(data).spec_config() == old(data).spec_config(),
        final(data).model().previews == old(data).model().previews,
        final(data).model().dirty == old(data).model().dirty,
        ({
            let toks = tokens@.map_values(|t: MdToken| t@);
            let env = TdEnv {
                highlight_code: config.highlight_code,
                theme: config.highlight_theme@,
                rss: rss,
                base: old(data).model(),
            };
            let run = td_run(toks, env, *visitor);
            match r {
                Ok(out) => {
                    &&& run.err is None
                    &&& out.levels@ == run.levels
                    &&& out.headings@.map_values(|h: Heading| h@) == run.headings
                    &&& final(data).model().tasks == tasks_after(env.base, run.new_tasks)
                    &&& exists|frags: Seq<Seq<char>>|
                        frags.len() == run.headings.len() && out.plan@.map_values(
                            |o: OutItem| o@,
                        ) == realize_plan(run.plan, frags, run.hl_inputs, env.theme)
                    &&& forall|k: int|
                        0 <= k < out.plan@.len() ==> (#[trigger] out.plan@[k] matches OutItem::Pass(
                            j,
                        ) ==> (j as int) < events@.len())
                },
                Err(e) => {
                    &&& run.err == Some(e@)
                    &&& final(data).model().tasks == tasks_after(env.base, run.new_tasks)
                },
            }
        }),
{
    let ghost toks = tokens@.map_values(|t: MdToken| t@);
    let ghost env = TdEnv {
        highlight_code: config.highlight_code,
        theme: config.highlight_theme@,
        rss: rss,
        base: old(data).model(),
    };
    let ghost vv = *visitor;
    let n = tokens.len();
    let mut fence: Option<String> = None;
    let mut in_image: bool = false;
    let mut image_alt: Option<String> = None;
    let mut heading: Option<HeadAcc> = None;
    let mut levels: Vec<u8> = Vec::new();
    let mut headings: Vec<Heading> = Vec::new();
    let mut plan: Vec<OutItem> = Vec::new();
    let ghost mut frags: Seq<Seq<char>> = Seq::empty();
    let mut i: usize = 0;
    proof {
        assert(td_run_to(toks, 0, env, vv) == td_init());
        assert(levels@ =~= td_init().levels);
        assert(headings@.map_values(|h: Heading| h@) =~= td_init().headings);
        assert(plan@.map_values(|o: OutItem| o@) =~= realize_plan(
            td_init().plan,
            frags,
            td_init().hl_inputs,
            env.theme,
        ));
        assert(tasks_after(env.base, td_init().new_tasks) =~= env.base.tasks);
    }
    while i < n
        invariant
            i <= n,
            n == tokens@.len(),
            n == events@.len(),
            toks == tokens@.map_values(|t: MdToken| t@),
            toks.len() == n,
            tokens_wf(toks),
            vv == *visitor,
            env.highlight_code == config.highlight_code,
            env.theme == config.highlight_theme@,
            env.rss == rss,
            env.base == old(data).model(),
            ({
                let run = td_run_to(toks, i as int, env, vv);
                &&& run.err is None
                &&& ostr(fence) == run.fence
                &&& in_image == run.in_image
                &&& ostr(image_alt) == run.image_alt
                &&& ohead(heading) == run.heading
                &&& levels@ == run.levels
                &&& headings@.map_values(|h: Heading| h@) == run.headings
                &&& plan@.map_values(|o: OutItem| o@) == realize_plan(
                    run.plan,
                    frags,
                    run.hl_inputs,
                    env.theme,
                )
                &&& frags.len() == run.headings.len()
                &&& plan_wf(run.plan, run.headings.len() as int, run.hl_inputs.len() as int)
                &&& (run.heading matches Some(h) ==> 0 <= h.start < i && 1 <= h.level <= 6)
                &&& data.wf()
                &&& data.model().previews == env.base.previews
                &&& data.model().tasks == tasks_after(env.base, run.new_tasks)
                &&& data.model().dirty == env.base.dirty
                &&& data.spec_config() == old(data).spec_config()
            }),
            forall|k: int|
                0 <= k < plan@.len() ==> (#[trigger] plan@[k] matches OutItem::Pass(j) ==> (
                j as int) < n),
        decreases n - i,
    {
        let ghost run0 = td_run_to(toks, i as int, env, vv);
        let ghost run1 = td_run_to(toks, i + 1, env, vv);
        proof {
            assert(run1 == td_step(run0, toks[i as int], i as int, env, vv));
            assert(toks[i as int] == tokens@[i as int]@);
        }
        let tok = &tokens[i];
        match tok {
            MdToken::HeadingStart { level, id } => {
                if heading.is_none() {
                    let id_copy: Option<String> = match id {
                        Some(s) => Some(s.clone()),
                        None => None,
                    };
                    heading = Some(
                        HeadAcc { level: *level, id: id_copy, title: String::new(), start: i },
                    );
                }
            },
            MdToken::HeadingEnd => {
                if heading.is_some() {
                    let h = heading.unwrap();
                    heading = None;
                    let from = h.start + 1;
                    let to = i;
                    let frag = render_fragment(events, from, to);
                    let ghost frag_v = frag@;
                    let id_final: String = match h.id {
                        Some(idv) => idv,
                        None => derive_id_exec(h.title.as_str()),
                    };
                    let ghost id_v = id_final@;
                    let ghost title_v = h.title@;
                    let ghost frags_old = frags;
                    let ghost pre_map = plan@.map_values(|o: OutItem| o@);
                    let html = render_heading_template(frag.as_str(), h.level, id_final.as_str());
                    let ghost html_v = html@;
                    proof {
                        frags = frags.push(frag_v);
                    }
                    plan.push(OutItem::Html(html));
                    levels = insert_level_exec(levels, h.level);
                    let lvl_usize: usize = h.level as usize;
                    headings.push(
                        Heading {
                            toc: Toc {
                                depth: lvl_usize,
                                level: lvl_usize,
                                id: Some(id_final),
                                title: h.title,
                            },
                            from: from,
                            to: to,
                        },
                    );
                    proof {
                        let slot = PlanItemV::HeadingSlot {
                            frag: run0.headings.len() as int,
                            level: h.level,
                            id: id_v,
                        };
                        assert(run1.plan == run0.plan.push(slot));
                        assert(run1.hl_inputs == run0.hl_inputs);
                        assert(frags[run0.headings.len() as int] == frag_v);
                        assert(html_v == heading_html_spec(frag_v, h.level as int, id_v));
                        assert(realize_item(slot, frags, run1.hl_inputs, env.theme)
                            == OutItemV::Html(html_v));
                        assert(plan@.map_values(|o: OutItem| o@) =~= pre_map.push(
                            OutItemV::Html(html_v),
                        ));
                        lemma_plan_step(
                            pre_map,
                            plan@.map_values(|o: OutItem| o@),
                            run0.plan,
                            slot,
                            OutItemV::Html(html_v),
                            frags_old,
                            frags,
                            run0.hl_inputs,
                            run1.hl_inputs,
                            env.theme,
                        );
                        assert(headings@.map_values(|hh: Heading| hh@) =~= run1.headings);
                    }
                }
            },
            MdToken::ImageStart { dest, title } => {
                if heading.is_none() {
                    let alt: String = match image_alt {
                        Some(a) => a,
                        None => String::new(),
                    };
                    image_alt = None;
                    in_image = true;
                    let html = crate::code_blocks::image_html(
                        dest.as_str(),
                        alt.as_str(),
                        title.as_str(),
                    );
                    let ghost alt_v = alt@;
                    let ghost html_v = html@;
                    let ghost pre_map = plan@.map_values(|o: OutItem| o@);
                    plan.push(OutItem::Html(html));
                    proof {
                        let slot = PlanItemV::Html(image_html_spec(dest@, alt_v, title@));
                        assert(run1.plan == run0.plan.push(slot));
                        assert(run1.hl_inputs == run0.hl_inputs);
                        assert(html_v == image_html_spec(dest@, alt_v, title@));
                        assert(plan@.map_values(|o: OutItem| o@) =~= pre_map.push(
                            OutItemV::Html(html_v),
                        ));
                        lemma_plan_step(
                            pre_map,
                            plan@.map_values(|o: OutItem| o@),
                            run0.plan,
                            slot,
                            OutItemV::Html(html_v),
                            frags,
                            frags,
                            run0.hl_inputs,
                            run1.hl_inputs,
                            env.theme,
                        );
                    }
                }
            },
            MdToken::ImageEnd => {
                if heading.is_none() {
                    in_image = false;
                }
            },
            MdToken::FenceStart { info } => {
                if heading.is_none() {
                    fence = Some(info.clone());
                }
            },
            MdToken::FenceEnd => {
                if heading.is_none() {
                    fence = None;
                }
            },
            MdToken::Text(s) => {
                match &mut heading {
                    Some(h) => {
                        h.title.append(s.as_str());
                    },
                    None => {
                        if in_image {
                            image_alt = Some(s.clone());
                        } else {
                            let fence_info: Option<String> = match &fence {
                                Some(f) => Some(f.clone()),
                                None => None,
                            };
                            match fence_info {
                                Some(info) => {
                                    let res = transduce_block(
                                        &info,
                                        s,
                                        config,
                                        rss,
                                        visitor,
                                        data,
                                        &mut plan,
                                        Ghost(run0),
                                        Ghost(env),
                                        Ghost(frags),
                                    );
                                    match res {
                                        Ok(()) => {
                                            proof {
                                                assert(run1 == td_block(
                                                    run0,
                                                    info@,
                                                    s@,
                                                    env,
                                                    vv,
                                                ));
                                            }
                                        },
                                        Err(e) => {
                                            proof {
                                                lemma_td_frozen(
                                                    toks,
                                                    i + 1,
                                                    toks.len() as int,
                                                    env,
                                                    vv,
                                                );
                                            }
                                            return Err(e);
                                        },
                                    }
                                },
                                None => {
                                    let ghost pre_map = plan@.map_values(|o: OutItem| o@);
                                    plan.push(OutItem::Pass(i));
                                    proof {
                                        let slot = PlanItemV::Pass(i as int);
                                        assert(run1.plan == run0.plan.push(slot));
                                        assert(plan@.map_values(|o: OutItem| o@) =~= pre_map.push(
                                            OutItemV::Pass(i as int),
                                        ));
                                        lemma_plan_step(
                                            pre_map,
                                            plan@.map_values(|o: OutItem| o@),
                                            run0.plan,
                                            slot,
                                            OutItemV::Pass(i as int),
                                            frags,
                                            frags,
                                            run0.hl_inputs,
                                            run1.hl_inputs,
                                            env.theme,
                                        );
                                    }
                                },
                            }
                        }
                    },
                }
            },
            MdToken::Code(s) => {
                match &mut heading {
                    Some(h) => {
                        h.title.append(s.as_str());
                    },
                    None => {
                        let answered: Option<String> = match visitor {
                            Some(vis) => vis.visit_code(s.as_str()),
                            None => None,
                        };
                        let ghost pre_map = plan@.map_values(|o: OutItem| o@);
                        match answered {
                            Some(html) => {
                                let ghost html_v = html@;
                                plan.push(OutItem::Html(html));
                                proof {
                                    let slot = PlanItemV::Html(html_v);
                                    assert(run1.plan == run0.plan.push(slot));
                                    assert(plan@.map_values(|o: OutItem| o@) =~= pre_map.push(
                                        OutItemV::Html(html_v),
                                    ));
                                    lemma_plan_step(
                                        pre_map,
                                        plan@.map_values(|o: OutItem| o@),
                                        run0.plan,
                                        slot,
                                        OutItemV::Html(html_v),
                                        frags,
                                        frags,
                                        run0.hl_inputs,
                                        run1.hl_inputs,
                                        env.theme,
                                    );
                                }
                            },
                            None => {
                                plan.push(OutItem::Pass(i));
                                proof {
                                    let slot = PlanItemV::Pass(i as int);
                                    assert(run1.plan == run0.plan.push(slot));
                                    assert(plan@.map_values(|o: OutItem| o@) =~= pre_map.push(
                                        OutItemV::Pass(i as int),
                                    ));
                                    lemma_plan_step(
                                        pre_map,
                                        plan@.map_values(|o: OutItem| o@),
                                        run0.plan,
                                        slot,
                                        OutItemV::Pass(i as int),
                                        frags,
                                        frags,
                                        run0.hl_inputs,
                                        run1.hl_inputs,
                                        env.theme,
                                    );
                                }
                            },
                        }
                    },
                }
            },
            MdToken::Other => {
                if heading.is_none() {
                    let ghost pre_map = plan@.map_values(|o: OutItem| o@);
                    plan.push(OutItem::Pass(i));
                    proof {
                        let slot = PlanItemV::Pass(i as int);
                        assert(run1.plan == run0.plan.push(slot));
                        assert(plan@.map_values(|o: OutItem| o@) =~= pre_map.push(
                            OutItemV::Pass(i as int),
                        ));
                        lemma_plan_step(
                            pre_map,
                            plan@.map_values(|o: OutItem| o@),
                            run0.plan,
                            slot,
                            OutItemV::Pass(i as int),
                            frags,
                            frags,
                            run0.hl_inputs,
                            run1.hl_inputs,
                            env.theme,
                        );
                    }
                }
            },
        }
        i = i + 1;
    }
    let out = TransduceOut { plan, headings, levels };
    Ok(out)
}

// ---------------------------------------------------------------------
// Depth normalization.
// ---------------------------------------------------------------------
/// Strictly ascending levels.
pub open spec fn levels_sorted(levels: Seq<u8>) -> bool {
    forall|a: int, b: int| 0 <= a < b < levels.len() ==> levels[a] < levels[b]
}

/// Inserting keeps the levels strictly ascending, within bounds.
pub proof fn lemma_insert_level_sorted(levels: Seq<u8>, l: u8)
    requires
        levels_sorted(levels),
    ensures
        levels_sorted(insert_level(levels, l)),
        insert_level(levels, l).len() <= levels.len() + 1,
        forall|k: int|
            0 <= k < insert_level(levels, l).len() ==> (#[trigger] insert_level(levels, l)[k] == l
                || exists|j: int| 0 <= j < levels.len() && levels[j] == insert_level(levels, l)[k]),
    decreases levels.len(),
{
    let r = insert_level(levels, l);
    if levels.len() == 0 {
        assert(r =~= seq![l]);
    } else if levels[0] == l {
    } else if l < levels[0] {
        assert(r =~= seq![l] + levels);
        assert forall|a: int, b: int| 0 <= a < b < r.len() implies r[a] < r[b] by {
            if a == 0 {
                if b > 1 {
                    assert(levels[0] < levels[b - 1]);
                }
            }
        }
    } else {
        assert(levels_sorted(levels.skip(1))) by {
            assert(forall|a: int, b: int|
                0 <= a < b < levels.skip(1).len() ==> levels.skip(1)[a] == levels[a + 1]
                    && levels.skip(1)[b] == levels[b + 1]);
        }
        lemma_insert_level_sorted(levels.skip(1), l);
        let r2 = insert_level(levels.skip(1), l);
        assert(r =~= seq![levels[0]] + r2);
        assert forall|a: int, b: int| 0 <= a < b < r.len() implies r[a] < r[b] by {
            if a == 0 {
                assert(r[b] == r2[b - 1]);
                if r2[b - 1] == l {
                } else {
                    let j = choose|j: int|
                        0 <= j < levels.skip(1).len() && levels.skip(1)[j] == r2[b - 1];
                    assert(levels[j + 1] == r2[b - 1]);
                    assert(levels[0] < levels[j + 1]);
                }
            } else {
                assert(r[a] == r2[a - 1] && r[b] == r2[b - 1]);
            }
        }
        assert forall|k: int|
            0 <= k < r.len() implies (#[trigger] r[k] == l || exists|j: int|
            0 <= j < levels.len() && levels[j] == r[k]) by {
            if k == 0 {
                assert(levels[0] == r[0]);
            } else {
                assert(r[k] == r2[k - 1]);
                if r2[k - 1] != l {
                    let j = choose|j: int|
                        0 <= j < levels.skip(1).len() && levels.skip(1)[j] == r2[k - 1];
                    assert(levels[j + 1] == r[k]);
                }
            }
        }
    }
}

/// The state invariants of the transducer fold: the distinct levels
/// stay strictly ascending and within the heading range, as does the
/// level of every recorded heading and of the open capture.
pub proof fn lemma_td_invariants<V: MarkdownVisitor>(
    toks: Seq<MdTokenV>,
    n: int,
    env: TdEnv,
    v: Option<V>,
)
    requires
        0 <= n <= toks.len(),
        tokens_wf(toks),
    ensures
        ({
            let run = td_run_to(toks, n, env, v);
            &&& levels_sorted(run.levels)
            &&& forall|k: int| 0 <= k < run.levels.len() ==> 1 <= #[trigger] run.levels[k] <= 6
            &&& forall|k: int|
                0 <= k < run.headings.len() ==> 1 <= #[trigger] run.headings[k].toc.level <= 6
            &&& (run.heading matches Some(h) ==> 1 <= h.level <= 6)
        }),
    decreases n,
{
    if n > 0 {
        lemma_td_invariants(toks, n - 1, env, v);
        let run0 = td_run_to(toks, n - 1, env, v);
        let run1 = td_run_to(toks, n, env, v);
        if run0.err is None {
            match toks[n - 1] {
                MdTokenV::HeadingEnd => {
                    match run0.heading {
                        Some(h) => {
                            lemma_insert_level_sorted(run0.levels, h.level);
                            assert(forall|k: int|
                                0 <= k < run1.headings.len() - 1 ==> run1.headings[k]
                                    == run0.headings[k]);
                        },
                        None => {},
                    }
                },
                _ => {},
            }
        }
    }
}

/// Strictly ascending byte levels are few: each is at least its index.
pub proof fn lemma_levels_len(levels: Seq<u8>)
    requires
        levels_sorted(levels),
    ensures
        levels.len() <= 256,
{
    if levels.len() > 256 {
        lemma_ascending_lower(levels, 255);
        assert(levels[255] as int >= levels[0] as int + 255);
        assert(levels[0] < levels[255] + 1);
        lemma_ascending_lower(levels, 256);
        assert(levels[256] as int >= levels[0] as int + 256);
    }
}

proof fn lemma_ascending_lower(levels: Seq<u8>, k: int)
    requires
        levels_sorted(levels),
        0 <= k < levels.len(),
    ensures
        levels[k] as int >= levels[0] as int + k,
    decreases k,
{
    if k > 0 {
        lemma_ascending_lower(levels, k - 1);
        assert(levels[k - 1] < levels[k]);
    }
}

/// One heading with its depth set to the rank of its level.
pub open spec fn rebuild_heading(h: HeadingV, levels: Seq<u8>) -> HeadingV {
    HeadingV {
        toc: TocV { depth: level_index(levels, h.toc.level as u8) + 1, ..h.toc },
        ..h
    }
}

/// All recorded headings with normalized depths: each heading's depth is
/// the rank of its raw level among the distinct levels of the document.
pub open spec fn rebuild_toc(headings: Seq<HeadingV>, levels: Seq<u8>) -> Seq<HeadingV> {
    headings.map_values(|h: HeadingV| rebuild_heading(h, levels))
}

/// Recompute each recorded heading's relative depth from the distinct
/// levels seen in the document.
fn rebuild_toc_depth(headings: Vec<Heading>, levels: &Vec<u8>) -> (r: Vec<Heading>)
    requires
        levels_sorted(levels@),
        forall|k: int| 0 <= k < headings@.len() ==> 0 <= #[trigger] headings@[k]@.toc.level <= 255,
    ensures
        r@.map_values(|h: Heading| h@) == rebuild_toc(
            headings@.map_values(|h: Heading| h@),
            levels@,
        ),
{
    proof {
        lemma_levels_len(levels@);
    }
    let ghost hview = headings@.map_values(|h: Heading| h@);
    let n = headings.len();
    let mut out: Vec<Heading> = Vec::new();
    let mut i: usize = 0;
    proof {
        assert(out@.map_values(|h: Heading| h@) =~= rebuild_toc(hview, levels@).take(0));
    }
    while i < n
        invariant
            i <= n,
            n == headings@.len(),
            hview == headings@.map_values(|h: Heading| h@),
            levels_sorted(levels@),
            levels@.len() <= 256,
            forall|k: int| 0 <= k < headings@.len() ==> 0 <= #[trigger] headings@[k]@.toc.level
                <= 255,
            out@.map_values(|h: Heading| h@) == rebuild_toc(hview, levels@).take(i as int),
        decreases n - i,
    {
        let h = &headings[i];
        let lvl: u8 = h.toc.level as u8;
        let idx = level_index_exec(levels, lvl);
        let depth = idx + 1;
        let id_copy: Option<String> = match &h.toc.id {
            Some(s) => Some(s.clone()),
            None => None,
        };
        out.push(
            Heading {
                toc: Toc {
                    depth: depth,
                    level: h.toc.level,
                    id: id_copy,
                    title: h.toc.title.clone(),
                },
                from: h.from,
                to: h.to,
            },
        );
        proof {
            if level_index(levels@, lvl) >= levels@.len() {
                assert(idx as int == levels@.len() as int || idx as int == level_index(
                    levels@,
                    lvl,
                ));
            }
            assert(level_index(levels@, lvl) <= levels@.len() ==> idx as int == level_index(
                levels@,
                lvl,
            )) by {
                lemma_level_index_bound(levels@, lvl);
            }
            lemma_level_index_bound(levels@, lvl);
            assert(idx as int == level_index(levels@, lvl));
            assert(rebuild_toc(hview, levels@)[i as int] == rebuild_heading(
                hview[i as int],
                levels@,
            ));
            assert(hview[i as int] == headings@[i as int]@);
            assert(rebuild_toc(hview, levels@).take(i + 1) =~= rebuild_toc(
                hview,
                levels@,
            ).take(i as int).push(rebuild_heading(hview[i as int], levels@)));
            assert(out@.map_values(|h: Heading| h@) =~= rebuild_toc(hview, levels@).take(i + 1));
        }
        i = i + 1;
    }
    proof {
        assert(rebuild_toc(hview, levels@).take(n as int) =~= rebuild_toc(hview, levels@));
    }
    out
}

/// The rank of a level never exceeds the number of levels.
proof fn lemma_level_index_bound(levels: Seq<u8>, l: u8)
    ensures
        0 <= level_index(levels, l) <= levels.len(),
    decreases levels.len(),
{
    if levels.len() > 0 && levels[0] != l {
        lemma_level_index_bound(levels.skip(1), l);
    }
}

// ---------------------------------------------------------------------
// Feed-safe suppression.
// ---------------------------------------------------------------------
/// In feed-safe mode a text run inside a `url-preview` fence is
/// suppressed entirely: it adds no output, registers no fetch and
/// changes nothing at all.
pub proof fn lemma_feed_safe_step<V: MarkdownVisitor>(
    st: TdRun,
    s: Seq<char>,
    idx: int,
    env: TdEnv,
    v: Option<V>,
)
    requires
        env.rss,
        st.err is None,
        st.heading is None,
        !st.in_image,
        st.fence matches Some(info) && fenced_of(info).name == spec_url_preview_name(),
    ensures
        td_step(st, MdTokenV::Text(s), idx, env, v) == st,
{
}

/// In feed-safe mode no render ever registers a fetch.
pub proof fn lemma_feed_safe_no_fetch<V: MarkdownVisitor>(
    toks: Seq<MdTokenV>,
    n: int,
    env: TdEnv,
    v: Option<V>,
)
    requires
        0 <= n <= toks.len(),
        env.rss,
    ensures
        td_run_to(toks, n, env, v).new_tasks == Seq::<Seq<char>>::empty(),
    decreases n,
{
    if n > 0 {
        lemma_feed_safe_no_fetch(toks, n - 1, env, v);
        let run0 = td_run_to(toks, n - 1, env, v);
        let run1 = td_run_to(toks, n, env, v);
        assert(run1.new_tasks == run0.new_tasks);
    }
}

// ---------------------------------------------------------------------
// The renderer.
// ---------------------------------------------------------------------
/// The Markdown HTML renderer: per-call configuration around the
/// transducer. One renderer value serves one render pass at a time; its
/// state is never shared between passes.
pub struct MarkdownRender<V: MarkdownVisitor> {
    markdown_config: MarkdownConfig,
    visitor: Option<V>,
    rss_mode: bool,
    toc_enabled: bool,
    headings: Vec<Heading>,
}

impl MarkdownRender<crate::visitor::NoVisitor> {
    /// A renderer over the given configuration, with no visitor, in
    /// article mode, without table-of-contents extraction.
    pub fn new(markdown_config: &MarkdownConfig) -> (r: Self)
        ensures
            r.spec_config().highlight_code == markdown_config.highlight_code,
            r.spec_config().highlight_theme@ == markdown_config.highlight_theme@,
            r.spec_visitor() is None,
            r.spec_rss() == false,
            r.spec_toc_enabled() == false,
            r.spec_headings() == Seq::<HeadingV>::empty(),
    {
        let r = MarkdownRender {
            markdown_config: MarkdownConfig {
                highlight_code: markdown_config.highlight_code,
                highlight_theme: markdown_config.highlight_theme.clone(),
            },
            visitor: None,
            rss_mode: false,
            toc_enabled: false,
            headings: Vec::new(),
        };
        proof {
            assert(r.spec_headings() =~= Seq::<HeadingV>::empty());
        }
        r
    }
}

impl<V: MarkdownVisitor> MarkdownRender<V> {
    pub closed spec fn spec_config(&self) -> MarkdownConfig {
        self.markdown_config
    }

    pub closed spec fn spec_visitor(&self) -> Option<V> {
        self.visitor
    }

    pub closed spec fn spec_rss(&self) -> bool {
        self.rss_mode
    }

    pub closed spec fn spec_toc_enabled(&self) -> bool {
        self.toc_enabled
    }

    pub closed spec fn spec_headings(&self) -> Seq<HeadingV> {
        self.headings@.map_values(|h: Heading| h@)
    }

    /// Install a custom-block visitor, replacing any earlier one.
    pub fn set_markdown_visitor<W: MarkdownVisitor>(self, visitor: W) -> (r: MarkdownRender<W>)
        ensures
            r.spec_config() == self.spec_config(),
            r.spec_visitor() == Some(visitor),
            r.spec_rss() == self.spec_rss(),
            r.spec_toc_enabled() == self.spec_toc_enabled(),
            r.spec_headings() == self.spec_headings(),
    {
        MarkdownRender {
            markdown_config: self.markdown_config,
            visitor: Some(visitor),
            rss_mode: self.rss_mode,
            toc_enabled: self.toc_enabled,
            headings: self.headings,
        }
    }

    /// Enable feed-safe mode: content unsuitable for syndication (the
    /// `url-preview` blocks) is suppressed.
    pub fn enable_rss_mode(&mut self)
        ensures
            final(self).spec_rss() == true,
            final(self).spec_config() == old(self).spec_config(),
            final(self).spec_visitor() == old(self).spec_visitor(),
            final(self).spec_toc_enabled() == old(self).spec_toc_enabled(),
            final(self).spec_headings() == old(self).spec_headings(),
    {
        self.rss_mode = true;
    }

    /// Enable table-of-contents extraction for the next render.
    pub fn enable_toc(&mut self)
        ensures
            final(self).spec_toc_enabled() == true,
            final(self).spec_config() == old(self).spec_config(),
            final(self).spec_visitor() == old(self).spec_visitor(),
            final(self).spec_rss() == old(self).spec_rss(),
            final(self).spec_headings() == old(self).spec_headings(),
    {
        self.toc_enabled = true;
    }

    /// Take the extracted table of contents: the recorded headings'
    /// entries, in document order, with normalized depths.
    pub fn get_toc(&mut self) -> (r: Vec<Toc>)
        ensures
            r@.map_values(|t: Toc| t@) == old(self).spec_headings().map_values(
                |h: HeadingV| h.toc,
            ),
            final(self).spec_headings() == Seq::<HeadingV>::empty(),
            final(self).spec_config() == old(self).spec_config(),
            final(self).spec_visitor() == old(self).spec_visitor(),
            final(self).spec_rss() == old(self).spec_rss(),
            final(self).spec_toc_enabled() == old(self).spec_toc_enabled(),
    {
        let n = self.headings.len();
        let mut out: Vec<Toc> = Vec::new();
        let mut i: usize = 0;
        proof {
            assert(out@.map_values(|t: Toc| t@) =~= self.spec_headings().map_values(
                |h: HeadingV| h.toc,
            ).take(0));
        }
        while i < n
            invariant
                i <= n,
                n == self.headings@.len(),
                self.headings@ == old(self).headings@,
                out@.map_values(|t: Toc| t@) == old(self).spec_headings().map_values(
                    |h: HeadingV| h.toc,
                ).take(i as int),
            decreases n - i,
        {
            let h = &self.headings[i];
            let id_copy: Option<String> = match &h.toc.id {
                Some(s) => Some(s.clone()),
                None => None,
            };
            out.push(
                Toc {
                    depth: h.toc.depth,
                    level: h.toc.level,
                    id: id_copy,
                    title: h.toc.title.clone(),
                },
            );
            proof {
                assert(old(self).spec_headings().map_values(|h: HeadingV| h.toc).take(i + 1)
                    =~= old(self).spec_headings().map_values(|h: HeadingV| h.toc).take(
                    i as int,
                ).push(old(self).spec_headings()[i as int].toc));
                assert(old(self).spec_headings()[i as int] == old(self).headings@[i as int]@);
                assert(out@.map_values(|t: Toc| t@) =~= old(self).spec_headings().map_values(
                    |h: HeadingV| h.toc,
                ).take(i + 1));
            }
            i = i + 1;
        }
        self.headings = Vec::new();
        proof {
            assert(old(self).spec_headings().map_values(|h: HeadingV| h.toc).take(n as int)
                =~= old(self).spec_headings().map_values(|h: HeadingV| h.toc));
            assert(self.spec_headings() =~= Seq::<HeadingV>::empty());
        }
        out
    }

    /// Render Markdown to HTML. Every decision of the pass follows the
    /// transducer specification over the classified token stream of the
    /// text: built-in blocks are rendered or suppressed exactly as
    /// specified, the new fetch tasks registered in the cache are
    /// exactly the specification's, and when table-of-contents
    /// extraction is on, the recorded headings are the specification's
    /// with normalized depths. The final HTML string itself is
    /// assembled by the trusted emitter from the verified plan.
    pub fn render_html(&mut self, data: &mut GenkitData, markdown: &str) -> (r: Result<
        String,
        RenderError,
    >)
        requires
            old(data).wf(),
        ensures
            final(data).wf(),
            final(data).spec_config() == old(data).spec_config(),
            final(data).model().previews == old(data).model().previews,
            final(data).model().dirty == old(data).model().dirty,
            final(self).spec_config() == old(self).spec_config(),
            final(self).spec_visitor() == old(self).spec_visitor(),
            final(self).spec_rss() == old(self).spec_rss(),
            final(self).spec_toc_enabled() == old(self).spec_toc_enabled(),
            ({
                let toks = md_tokens_of(markdown@);
                let env = TdEnv {
                    highlight_code: old(self).spec_config().highlight_code,
                    theme: old(self).spec_config().highlight_theme@,
                    rss: old(self).spec_rss(),
                    base: old(data).model(),
                };
                let run = td_run(toks, env, old(self).spec_visitor());
                match r {
                    Ok(_) => {
                        &&& run.err is None
                        &&& final(data).model().tasks == tasks_after(env.base, run.new_tasks)
                        &&& final(self).spec_headings() == (if old(self).spec_toc_enabled() {
                            rebuild_toc(run.headings, run.levels)
                        } else {
                            old(self).spec_headings()
                        })
                    },
                    Err(e) => {
                        &&& run.err == Some(e@)
                        &&& final(data).model().tasks == tasks_after(env.base, run.new_tasks)
                        &&& final(self).spec_headings() == old(self).spec_headings()
                    },
                }
            }),
    {
        let (events, tokens) = parse_markdown(markdown);
        let out = match transduce(
            &tokens,
            &events,
            &self.markdown_config,
            self.rss_mode,
            &self.visitor,
            data,
        ) {
            Ok(out) => out,
            Err(e) => {
                return Err(e);
            },
        };
        let ghost toks = md_tokens_of(markdown@);
        let ghost env = TdEnv {
            highlight_code: self.markdown_config.highlight_code,
            theme: self.markdown_config.highlight_theme@,
            rss: self.rss_mode,
            base: old(data).model(),
        };
        proof {
            lemma_td_invariants(toks, toks.len() as int, env, self.visitor);
        }
        let html = emit_html(&events, &out.plan);
        if self.toc_enabled {
            proof {
                assert forall|k: int|
                    0 <= k < out.headings@.len() implies 0 <= #[trigger] out.headings@[k]@.toc.level
                    <= 255 by {
                    let run = td_run(toks, env, self.visitor);
                    assert(out.headings@[k]@ == run.headings[k]);
                }
            }
            let rebuilt = rebuild_toc_depth(out.headings, &out.levels);
            self.headings = rebuilt;
        }
        Ok(html)
    }
}

/// Render Markdown for a feed: feed-safe mode, no table of contents.
/// The configuration comes from the cache's current Markdown options.
pub fn markdown_to_rss_function(data: &mut GenkitData, markdown: &str) -> (r: Result<
    String,
    RenderError,
>)
    requires
        old(data).wf(),
    ensures
        final(data).wf(),
        final(data).spec_config() == old(data).spec_config(),
        final(data).model() == old(data).model(),
        ({
            let toks = md_tokens_of(markdown@);
            let env = TdEnv {
                highlight_code: old(data).spec_config().highlight_code,
                theme: old(data).spec_config().highlight_theme@,
                rss: true,
                base: old(data).model(),
            };
            let run = td_run(toks, env, Option::<crate::visitor::NoVisitor>::None);
            match r {
                Ok(_) => run.err is None,
                Err(e) => run.err == Some(e@),
            }
        }),
{
    let cfg = MarkdownConfig {
        highlight_code: data.get_markdown_config().highlight_code,
        highlight_theme: data.get_markdown_config().highlight_theme.clone(),
    };
    let mut render = MarkdownRender::new(&cfg);
    render.enable_rss_mode();
    let ghost base = data.model();
    let r = render.render_html(data, markdown);
    proof {
        let toks = md_tokens_of(markdown@);
        let env = TdEnv {
            highlight_code: cfg.highlight_code,
            theme: cfg.highlight_theme@,
            rss: true,
            base: base,
        };
        lemma_feed_safe_no_fetch(
            toks,
            toks.len() as int,
            env,
            Option::<crate::visitor::NoVisitor>::None,
        );
        assert(tasks_after(base, td_run(
            toks,
            env,
            Option::<crate::visitor::NoVisitor>::None,
        ).new_tasks) =~= base.tasks);
    }
    r
}

} // verus!
