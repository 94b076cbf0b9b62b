//! A text map of what fills the context window.
//!
//! Amounts are scaled, divided and rounded by the caller, who hands them in as [`Figures`]; which
//! regions and lines there are, what they count and how they are laid out is settled here.
use vstd::prelude::*;

use crate::agent;
use crate::context_attribution::{ContextAttribution, ModelCallAttribution, ToolAttribution};
use crate::json;
use crate::seqs;
use crate::text;

verus! {

/// The window that is assumed when it is not known.
pub const DEFAULT_WINDOW: u64 = 200_000;

/// Columns of the bar in the header.
pub const HEADER_BAR: usize = 30;

/// Tokens that a tool schema is taken to need.
pub const SCHEMA_TOKENS: u64 = 150;

/// Columns for an amount of tokens.
pub const TOKEN_COLUMN: usize = 12;

/// Columns for a percentage.
pub const PERCENT_COLUMN: usize = 8;

/// How many tools are listed.
pub const TOP_TOOLS: usize = 10;

/// The tokens that go to the messages of each kind.
#[derive(Debug, Clone, Copy, PartialEq, Eq, Structural)]
pub struct Shares {
    pub user: u64,
    pub assistant: u64,
    pub tool_results: u64,
}

/// The figures of a line.
#[derive(Debug, Clone, PartialEq)]
pub struct LineFigures {
    /// The length of the bar: the tokens against the greatest region, scaled to the columns for the
    /// bar and rounded.
    pub bar: usize,
    /// The tokens divided by their [`token_divisor`], with one decimal.
    pub scaled: String,
    /// The tokens in percent, with one decimal.
    pub percent: String,
}

/// The figures of a map.
#[derive(Debug, Clone, PartialEq)]
pub struct Figures {
    /// The window divided by its [`token_divisor`], with one decimal.
    pub window: String,
    /// The input tokens divided by their [`token_divisor`], with one decimal.
    pub total: String,
    /// The input tokens against the window, scaled to [`HEADER_BAR`] and rounded.
    pub filled: usize,
    /// The input tokens in percent of the window, with one decimal.
    pub percent: String,
    pub shares: Shares,
    /// One for each line.
    pub lines: Vec<LineFigures>,
    /// The cache reads in percent of the input tokens, without decimals.
    pub hit_ratio: String,
    /// The cache reads divided by their [`token_divisor`], with one decimal.
    pub cache_read: String,
    /// The cache writes divided by their [`token_divisor`], with one decimal.
    pub cache_creation: String,
    /// For each listed tool the bytes of its results divided by their [`token_divisor`], with one
    /// decimal.
    pub tool_bytes: Vec<String>,
}

/// What an amount is divided by before it is shown.
pub open spec fn divisor(n: u64) -> u64 {
    if n >= 1_000_000 {
        1_000_000
    } else if n >= 10_000 {
        1_000
    } else {
        1
    }
}

/// What an amount is divided by before it is shown.
pub fn token_divisor(n: u64) -> (r: u64)
    ensures
        r == divisor(n),
{
    if n >= 1_000_000 {
        1_000_000
    } else if n >= 10_000 {
        1_000
    } else {
        1
    }
}

/// An amount as it is shown: in millions or thousands if it is large, else in full.
pub open spec fn amount(n: u64, scaled: Seq<char>) -> Seq<char> {
    if n >= 1_000_000 {
        scaled + "M"@
    } else if n >= 10_000 {
        scaled + "K"@
    } else {
        text::decimal_view(n as nat)
    }
}

/// An amount as it is shown. `scaled` is the amount divided by its [`token_divisor`].
pub fn format_tokens(n: u64, scaled: &str) -> (r: String)
    ensures
        r@ == amount(n, scaled@),
{
    if n >= 1_000_000 {
        scaled.to_owned().concat("M")
    } else if n >= 10_000 {
        scaled.to_owned().concat("K")
    } else {
        text::decimal(n)
    }
}

/// A part of the context.
#[derive(Debug, PartialEq)]
pub struct Region {
    pub label: String,
    pub tokens: u64,
    /// Labels and tokens of its own parts.
    pub children: Vec<(String, u64)>,
    /// Whether it is room that is left.
    pub is_free: bool,
}

/// The contents of a [`Region`].
pub struct RegionView {
    pub label: Seq<char>,
    pub tokens: u64,
    pub children: Seq<(Seq<char>, u64)>,
    pub is_free: bool,
}

impl DeepView for Region {
    type V = RegionView;

    open spec fn deep_view(&self) -> RegionView {
        RegionView {
            label: self.label@,
            tokens: self.tokens,
            children: self.children.deep_view(),
            is_free: self.is_free,
        }
    }
}

/// A region without parts.
pub open spec fn plain(label: Seq<char>, tokens: u64, is_free: bool) -> RegionView {
    RegionView { label, tokens, children: Seq::empty(), is_free }
}

/// `x` alone if `c`, else nothing.
pub open spec fn only<A>(c: bool, x: A) -> Seq<A> {
    if c {
        seq![x]
    } else {
        Seq::empty()
    }
}

/// A label with a count behind it.
pub open spec fn counted(name: Seq<char>, n: u32) -> Seq<char> {
    name + " ("@ + text::decimal_view(n as nat) + ")"@
}

/// The prompt of the latest call, or all input if no call reported one.
pub open spec fn snapshot(attr: ContextAttribution) -> u64 {
    if attr.model_calls@.len() > 0 && attr.model_calls@.last().usage is Some {
        attr.model_calls@.last().usage->0.input_tokens
    } else {
        attr.total_input_tokens
    }
}

/// The tokens that the tool schemas of a call are taken to need.
pub open spec fn schema_tokens(call: ModelCallAttribution) -> u64 {
    (call.tool_count * SCHEMA_TOKENS) as u64
}

/// The tokens that are left for messages.
pub open spec fn messages_left(attr: ContextAttribution, call: ModelCallAttribution) -> u64 {
    if snapshot(attr) <= schema_tokens(call) {
        0
    } else {
        (snapshot(attr) - schema_tokens(call)) as u64
    }
}

/// The parts of the conversation of a call.
pub open spec fn conversation_parts(call: ModelCallAttribution, sh: Shares) -> Seq<
    (Seq<char>, u64),
> {
    only(
        call.user_message_count > 0,
        (counted("User messages"@, call.user_message_count), sh.user),
    ) + only(
        call.tool_result_count > 0,
        (counted("Tool results"@, call.tool_result_count), sh.tool_results),
    ) + only(
        call.assistant_message_count > 0,
        (counted("Assistant messages"@, call.assistant_message_count), sh.assistant),
    )
}

/// The conversation of a call.
pub open spec fn conversation(call: ModelCallAttribution, sh: Shares) -> RegionView {
    RegionView {
        label: "Conversation ("@ + text::decimal_view(call.message_count as nat) + " msgs)"@,
        tokens: agent::clamp64((sh.user + sh.assistant + sh.tool_results) as nat),
        children: conversation_parts(call, sh),
        is_free: false,
    }
}

/// The regions of the input: the tool schemas and the conversation of the latest call; without a
/// call the input as a whole, if there is any.
pub open spec fn input_regions(attr: ContextAttribution, sh: Shares) -> Seq<RegionView> {
    if attr.model_calls@.len() > 0 {
        let call = attr.model_calls@.last();
        only(
            call.tool_count > 0,
            plain(counted("Tool schemas"@, call.tool_count), schema_tokens(call), false),
        ).push(conversation(call, sh))
    } else {
        only(
            attr.total_input_tokens > 0,
            plain("Input tokens"@, attr.total_input_tokens, false),
        )
    }
}

/// What is left of a known window.
pub open spec fn free_region(attr: ContextAttribution) -> Seq<RegionView> {
    match attr.window_max {
        Some(max) => only(
            attr.total_input_tokens < max,
            plain("Free"@, (max - attr.total_input_tokens) as u64, true),
        ),
        None => Seq::empty(),
    }
}

/// The regions of the map, from top to bottom.
pub open spec fn regions_view(attr: ContextAttribution, sh: Shares) -> Seq<RegionView> {
    input_regions(attr, sh) + only(
        attr.total_output_tokens > 0,
        plain("Output tokens"@, attr.total_output_tokens, false),
    ) + free_region(attr)
}

/// The tokens that the latest call has for messages, which are to be divided into [`Shares`] by the
/// numbers of messages of each kind; none without a call.
pub fn message_tokens(attr: &ContextAttribution) -> (r: Option<u64>)
    ensures
        r == (if attr.model_calls@.len() > 0 {
            Some(messages_left(*attr, attr.model_calls@.last()))
        } else {
            None
        }),
{
    let n: usize = attr.model_calls.len();
    if n == 0 {
        return None;
    }
    let call = &attr.model_calls[n - 1];
    let input: u64 = match call.usage {
        Some(u) => u.input_tokens,
        None => attr.total_input_tokens,
    };
    Some(input.saturating_sub(call.tool_count as u64 * SCHEMA_TOKENS))
}

fn counted_label(name: &str, n: u32) -> (r: String)
    ensures
        r@ == counted(name@, n),
{
    let digits = text::decimal(n as u64);
    name.to_owned().concat(" (").concat(&digits).concat(")")
}

fn plain_region(label: String, tokens: u64, is_free: bool) -> (r: Region)
    ensures
        r.deep_view() == plain(label@, tokens, is_free),
{
    let r = Region { label, tokens, children: Vec::new(), is_free };
    proof {
        assert(r.children.deep_view() =~= Seq::empty());
    }
    r
}

fn push_part(parts: &mut Vec<(String, u64)>, wanted: bool, label: String, tokens: u64)
    ensures
        final(parts).deep_view() == old(parts).deep_view() + only(wanted, (label@, tokens)),
{
    let ghost before = parts.deep_view();
    if wanted {
        parts.push((label, tokens));
        proof {
            assert(parts.deep_view() =~= before + only(wanted, (label@, tokens)));
        }
    } else {
        proof {
            assert(before + only(wanted, (label@, tokens)) =~= before);
        }
    }
}

fn push_region(regions: &mut Vec<Region>, wanted: bool, region: Region)
    ensures
        final(regions).deep_view() == old(regions).deep_view() + only(wanted, region.deep_view()),
{
    let ghost before = regions.deep_view();
    if wanted {
        regions.push(region);
        proof {
            assert(regions.deep_view() =~= before + only(wanted, region.deep_view()));
        }
    } else {
        proof {
            assert(before + only(wanted, region.deep_view()) =~= before);
        }
    }
}

fn conversation_region(call: &ModelCallAttribution, shares: Shares) -> (r: Region)
    ensures
        r.deep_view() == conversation(*call, shares),
{
    let mut parts: Vec<(String, u64)> = Vec::new();
    push_part(
        &mut parts,
        call.user_message_count > 0,
        counted_label("User messages", call.user_message_count),
        shares.user,
    );
    push_part(
        &mut parts,
        call.tool_result_count > 0,
        counted_label("Tool results", call.tool_result_count),
        shares.tool_results,
    );
    push_part(
        &mut parts,
        call.assistant_message_count > 0,
        counted_label("Assistant messages", call.assistant_message_count),
        shares.assistant,
    );
    proof {
        assert(parts.deep_view() =~= conversation_parts(*call, shares));
    }
    let digits = text::decimal(call.message_count as u64);
    Region {
        label: "Conversation (".to_owned().concat(&digits).concat(" msgs)"),
        tokens: shares.user.saturating_add(shares.assistant).saturating_add(shares.tool_results),
        children: parts,
        is_free: false,
    }
}

/// The regions of the map, from top to bottom.
pub fn regions(attr: &ContextAttribution, shares: Shares) -> (r: Vec<Region>)
    ensures
        r.deep_view() == regions_view(*attr, shares),
{
    let mut r: Vec<Region> = Vec::new();
    let n: usize = attr.model_calls.len();
    if n > 0 {
        let call = &attr.model_calls[n - 1];
        push_region(
            &mut r,
            call.tool_count > 0,
            plain_region(
                counted_label("Tool schemas", call.tool_count),
                call.tool_count as u64 * SCHEMA_TOKENS,
                false,
            ),
        );
        push_region(&mut r, true, conversation_region(call, shares));
    } else {
        push_region(
            &mut r,
            attr.total_input_tokens > 0,
            plain_region("Input tokens".to_owned(), attr.total_input_tokens, false),
        );
    }
    proof {
        assert(r.deep_view() =~= input_regions(*attr, shares));
    }
    push_region(
        &mut r,
        attr.total_output_tokens > 0,
        plain_region("Output tokens".to_owned(), attr.total_output_tokens, false),
    );
    if let Some(max) = attr.window_max {
        let left: u64 = max.saturating_sub(attr.total_input_tokens);
        push_region(
            &mut r,
            attr.total_input_tokens < max,
            plain_region("Free".to_owned(), left, true),
        );
    }
    proof {
        assert(r.deep_view() =~= regions_view(*attr, shares));
    }
    r
}

/// The tokens of the greatest region, and at least one.
pub open spec fn greatest(regions: Seq<RegionView>) -> u64
    decreases regions.len(),
{
    if regions.len() == 0 {
        1
    } else {
        let before = greatest(regions.drop_last());
        if regions.last().tokens > before {
            regions.last().tokens
        } else {
            before
        }
    }
}

/// The columns of the map, and what its bars and percentages are taken of.
#[derive(Debug, Clone, Copy, PartialEq, Eq, Structural)]
pub struct LineLayout {
    pub label_width: usize,
    pub bar_budget: usize,
    pub token_col_width: usize,
    pub max_tokens: u64,
    pub total_for_pct: u64,
}

/// `a` without `b`, at least zero.
pub open spec fn less(a: int, b: int) -> int {
    if a <= b {
        0
    } else {
        a - b
    }
}

/// The columns for labels at the width `w`: thirty, or fewer on a narrow screen.
pub open spec fn label_columns(w: int) -> int {
    if less(w, 40) < 30 {
        less(w, 40)
    } else {
        30
    }
}

/// The columns for bars at the width `w`: what is left, and at least five.
pub open spec fn bar_columns(w: int) -> int {
    let left = w - 4 - label_columns(w) - 2 - TOKEN_COLUMN - PERCENT_COLUMN;
    if left < 5 {
        5
    } else {
        left
    }
}

/// The layout of a map of `regions` at the width `w`.
pub open spec fn layout_view(attr: ContextAttribution, regions: Seq<RegionView>, w: u16) -> LineLayout {
    LineLayout {
        label_width: label_columns(w as int) as usize,
        bar_budget: bar_columns(w as int) as usize,
        token_col_width: TOKEN_COLUMN,
        max_tokens: greatest(regions),
        total_for_pct: match attr.window_max {
            Some(max) => max,
            None => if attr.total_input_tokens > 1 {
                attr.total_input_tokens
            } else {
                1
            },
        },
    }
}

/// The layout of a map of `regions` at the width `width`.
pub fn layout(attr: &ContextAttribution, regions: &Vec<Region>, width: u16) -> (r: LineLayout)
    ensures
        r == layout_view(*attr, regions.deep_view(), width),
{
    let w: usize = width as usize;
    let mut max_tokens: u64 = 1;
    let ghost all = regions.deep_view();
    let mut i: usize = 0;
    proof {
        assert(all.take(0) =~= Seq::empty());
    }
    while i < regions.len()
        invariant
            i <= regions@.len(),
            all == regions.deep_view(),
            max_tokens == greatest(all.take(i as int)),
        decreases regions@.len() - i,
    {
        proof {
            seqs::lemma_take_step(all, i as int);
            assert(all[i as int] == regions@[i as int].deep_view());
        }
        if regions[i].tokens > max_tokens {
            max_tokens = regions[i].tokens;
        }
        i += 1;
    }
    proof {
        assert(all.take(all.len() as int) =~= all);
    }
    let narrow: usize = w.saturating_sub(40);
    let label_width: usize = if narrow < 30 {
        narrow
    } else {
        30
    };
    let left: usize = w.saturating_sub(4).saturating_sub(label_width).saturating_sub(
        2,
    ).saturating_sub(TOKEN_COLUMN).saturating_sub(PERCENT_COLUMN);
    let bar_budget: usize = if left < 5 {
        5
    } else {
        left
    };
    let total_for_pct: u64 = match attr.window_max {
        Some(max) => max,
        None => if attr.total_input_tokens > 1 {
            attr.total_input_tokens
        } else {
            1
        },
    };
    LineLayout {
        label_width,
        bar_budget,
        token_col_width: TOKEN_COLUMN,
        max_tokens,
        total_for_pct,
    }
}

/// A line of the map.
#[derive(Debug, PartialEq)]
pub struct TreeLine {
    pub prefix: &'static str,
    pub label: String,
    pub tokens: u64,
    pub is_free: bool,
    /// Whether it is a part of a region.
    pub is_child: bool,
}

/// The contents of a [`TreeLine`].
pub struct TreeLineView {
    pub prefix: Seq<char>,
    pub label: Seq<char>,
    pub tokens: u64,
    pub is_free: bool,
    pub is_child: bool,
}

impl DeepView for TreeLine {
    type V = TreeLineView;

    open spec fn deep_view(&self) -> TreeLineView {
        TreeLineView {
            prefix: self.prefix@,
            label: self.label@,
            tokens: self.tokens,
            is_free: self.is_free,
            is_child: self.is_child,
        }
    }
}

/// What stands before the `i`-th of `n` regions.
pub open spec fn region_prefix(i: int, n: int) -> Seq<char> {
    if i == 0 {
        "┌─"@
    } else if i == n - 1 {
        "└─"@
    } else {
        "├─"@
    }
}

/// What stands before the `j`-th of `m` parts of a region.
pub open spec fn child_prefix(last_region: bool, j: int, m: int) -> Seq<char> {
    if last_region {
        if j == m - 1 {
            "   └─"@
        } else {
            "   ├─"@
        }
    } else {
        if j == m - 1 {
            "│  └─"@
        } else {
            "│  ├─"@
        }
    }
}

/// The lines of the parts of a region.
pub open spec fn child_lines(children: Seq<(Seq<char>, u64)>, last_region: bool) -> Seq<
    TreeLineView,
> {
    Seq::new(
        children.len(),
        |j: int|
            TreeLineView {
                prefix: child_prefix(last_region, j, children.len() as int),
                label: children[j].0,
                tokens: children[j].1,
                is_free: false,
                is_child: true,
            },
    )
}

/// The line of the `i`-th of `n` regions.
pub open spec fn region_head(r: RegionView, i: int, n: int) -> TreeLineView {
    TreeLineView {
        prefix: region_prefix(i, n),
        label: r.label,
        tokens: r.tokens,
        is_free: r.is_free,
        is_child: false,
    }
}

/// The lines of the first `k` of `regions`: each region, followed by its parts.
pub open spec fn lines_of(regions: Seq<RegionView>, k: int) -> Seq<TreeLineView>
    decreases k,
{
    if k <= 0 {
        Seq::empty()
    } else {
        let r = regions[k - 1];
        lines_of(regions, k - 1).push(region_head(r, k - 1, regions.len() as int)) + child_lines(
            r.children,
            k == regions.len(),
        )
    }
}

/// The lines of the map.
pub open spec fn tree_view(regions: Seq<RegionView>) -> Seq<TreeLineView> {
    lines_of(regions, regions.len() as int)
}

fn push_children(lines: &mut Vec<TreeLine>, children: &Vec<(String, u64)>, last_region: bool)
    ensures
        final(lines).deep_view() == old(lines).deep_view() + child_lines(
            children.deep_view(),
            last_region,
        ),
{
    let ghost before = lines.deep_view();
    let ghost all = child_lines(children.deep_view(), last_region);
    let mut j: usize = 0;
    proof {
        assert(before + all.take(0) =~= before);
    }
    while j < children.len()
        invariant
            j <= children@.len(),
            all == child_lines(children.deep_view(), last_region),
            lines.deep_view() == before + all.take(j as int),
        decreases children@.len() - j,
    {
        let is_last = j == children.len() - 1;
        let prefix = if last_region {
            if is_last {
                "   └─"
            } else {
                "   ├─"
            }
        } else if is_last {
            "│  └─"
        } else {
            "│  ├─"
        };
        let ghost sofar = lines.deep_view();
        lines.push(
            TreeLine {
                prefix,
                label: children[j].0.clone(),
                tokens: children[j].1,
                is_free: false,
                is_child: true,
            },
        );
        proof {
            assert(children.deep_view()[j as int] == (children@[j as int].0@, children@[j as int].1));
            assert(lines.deep_view() =~= sofar.push(all[j as int]));
            assert(before + all.take(j + 1) =~= sofar.push(all[j as int]));
        }
        j += 1;
    }
    proof {
        assert(all.take(all.len() as int) =~= all);
    }
}

/// The lines of the map.
pub fn tree_lines(regions: &Vec<Region>) -> (r: Vec<TreeLine>)
    ensures
        r.deep_view() == tree_view(regions.deep_view()),
{
    let ghost all = regions.deep_view();
    let mut lines: Vec<TreeLine> = Vec::new();
    let mut i: usize = 0;
    proof {
        assert(lines.deep_view() =~= Seq::empty());
    }
    while i < regions.len()
        invariant
            i <= regions@.len(),
            all == regions.deep_view(),
            lines.deep_view() == lines_of(all, i as int),
        decreases regions@.len() - i,
    {
        let region = &regions[i];
        let is_last = i == regions.len() - 1;
        let prefix = if i == 0 {
            "┌─"
        } else if is_last {
            "└─"
        } else {
            "├─"
        };
        let ghost before = lines.deep_view();
        lines.push(
            TreeLine {
                prefix,
                label: region.label.clone(),
                tokens: region.tokens,
                is_free: region.is_free,
                is_child: false,
            },
        );
        proof {
            assert(all[i as int] == region.deep_view());
            assert(lines.deep_view() =~= before.push(
                region_head(all[i as int], i as int, all.len() as int),
            ));
        }
        push_children(&mut lines, &region.children, is_last);
        i += 1;
    }
    lines
}

/// The columns for the label of a line: three fewer for a part.
pub open spec fn line_label_width(line: TreeLineView, l: LineLayout) -> int {
    if line.is_child {
        less(l.label_width as int, 3)
    } else {
        l.label_width as int
    }
}

/// The first `w` characters of a label.
pub open spec fn cut(label: Seq<char>, w: int) -> Seq<char> {
    if label.len() > w {
        label.take(w)
    } else {
        label
    }
}

/// The bar of a line. An amount that is not zero has a bar.
pub open spec fn bar_view(line: TreeLineView, rounded: usize) -> Seq<char> {
    text::repeated(
        if line.is_free {
            '░'
        } else {
            '█'
        },
        if line.tokens > 0 && rounded == 0 {
            1
        } else {
            rounded as nat
        },
    )
}

/// The text of a line.
pub open spec fn line_text(
    line: TreeLineView,
    l: LineLayout,
    rounded: usize,
    scaled: Seq<char>,
    percent: Seq<char>,
) -> Seq<char> {
    let lw = line_label_width(line, l);
    line.prefix + " "@ + text::padded(cut(line.label, lw), lw as nat) + " "@ + text::padded(
        bar_view(line, rounded),
        l.bar_budget as nat,
    ) + " "@ + text::right_aligned(
        amount(line.tokens, scaled) + " tokens"@,
        l.token_col_width as nat,
    ) + "  ("@ + text::right_aligned(percent, 5) + "%)\n"@
}

/// The text of a line.
pub fn render_region_line(line: &TreeLine, layout: LineLayout, figures: &LineFigures) -> (r: String)
    ensures
        r@ == line_text(
            line.deep_view(),
            layout,
            figures.bar,
            figures.scaled@,
            figures.percent@,
        ),
{
    let lw: usize = if line.is_child {
        layout.label_width.saturating_sub(3)
    } else {
        layout.label_width
    };
    let bar_len: usize = if line.tokens > 0 && figures.bar == 0 {
        1
    } else {
        figures.bar
    };
    proof {
        reveal_strlit("░");
        reveal_strlit("█");
    }
    let bar = text::repeat(
        if line.is_free {
            "░"
        } else {
            "█"
        },
        bar_len,
    );
    let label: &str = if line.label.as_str().unicode_len() > lw {
        line.label.as_str().substring_char(0, lw)
    } else {
        line.label.as_str()
    };
    proof {
        assert(label@ =~= cut(line.label@, lw as int));
    }
    let tokens = format_tokens(line.tokens, &figures.scaled).concat(" tokens");
    let label = text::pad(label, lw);
    let bar = text::pad(&bar, layout.bar_budget);
    let tokens = text::align_right(&tokens, layout.token_col_width);
    let percent = text::align_right(&figures.percent, 5);
    line.prefix.to_owned().concat(" ").concat(&label).concat(" ").concat(&bar).concat(" ").concat(
        &tokens,
    ).concat("  (").concat(&percent).concat("%)\n")
}

/// The texts of the first `k` lines.
pub open spec fn tree_text(
    lines: Seq<TreeLineView>,
    l: LineLayout,
    figures: Seq<LineFigures>,
    k: int,
) -> Seq<char>
    decreases k,
{
    if k <= 0 {
        Seq::empty()
    } else {
        let f = figures[k - 1];
        tree_text(lines, l, figures, k - 1) + line_text(
            lines[k - 1],
            l,
            f.bar,
            f.scaled@,
            f.percent@,
        )
    }
}

/// The regions as a tree, one line for each region and each of its parts.
pub fn render_region_tree(attr: &ContextAttribution, width: u16, figures: &Figures) -> (r: String)
    requires
        figures.lines@.len() == tree_view(regions_view(*attr, figures.shares)).len(),
    ensures
        r@ == ({
            let regions = regions_view(*attr, figures.shares);
            tree_text(
                tree_view(regions),
                layout_view(*attr, regions, width),
                figures.lines@,
                tree_view(regions).len() as int,
            )
        }),
{
    let regions = regions(attr, figures.shares);
    let layout = layout(attr, &regions, width);
    let lines = tree_lines(&regions);
    let ghost all = lines.deep_view();
    let mut r: String = String::new();
    let mut i: usize = 0;
    proof {
        assert(r@ =~= Seq::empty());
    }
    while i < lines.len()
        invariant
            i <= lines@.len(),
            all == lines.deep_view(),
            figures.lines@.len() == lines@.len(),
            r@ == tree_text(all, layout, figures.lines@, i as int),
        decreases lines@.len() - i,
    {
        let line = render_region_line(&lines[i], layout, &figures.lines[i]);
        proof {
            assert(all[i as int] == lines@[i as int].deep_view());
        }
        r.append(&line);
        i += 1;
    }
    r
}

/// The window that the header shows.
pub open spec fn window_of(attr: ContextAttribution) -> u64 {
    match attr.window_max {
        Some(max) => max,
        None => DEFAULT_WINDOW,
    }
}

/// How much of the bar in the header is filled.
pub open spec fn header_filled(attr: ContextAttribution, rounded: usize) -> nat {
    if window_of(attr) == 0 {
        0
    } else if rounded < HEADER_BAR {
        rounded as nat
    } else {
        HEADER_BAR as nat
    }
}

/// The header.
pub open spec fn header_text(attr: ContextAttribution, f: Figures) -> Seq<char> {
    let filled = header_filled(attr, f.filled);
    let window = amount(window_of(attr), f.window@);
    "Context window: "@ + window + " tokens  ["@ + text::repeated('█', filled) + text::repeated(
        '░',
        (HEADER_BAR - filled) as nat,
    ) + "] "@ + amount(attr.total_input_tokens, f.total@) + " / "@ + window + " ("@ + f.percent@
        + "%)"@
}

/// The window that the header shows, and of which the bar and the percentage in it are taken.
pub fn window(attr: &ContextAttribution) -> (r: u64)
    ensures
        r == window_of(*attr),
{
    match attr.window_max {
        Some(max) => max,
        None => DEFAULT_WINDOW,
    }
}

/// The header: how much of the window is used.
pub fn render_header(attr: &ContextAttribution, figures: &Figures) -> (r: String)
    ensures
        r@ == header_text(*attr, *figures),
{
    let max: u64 = window(attr);
    let filled: usize = if max == 0 {
        0
    } else if figures.filled < HEADER_BAR {
        figures.filled
    } else {
        HEADER_BAR
    };
    proof {
        reveal_strlit("░");
        reveal_strlit("█");
    }
    let full = text::repeat("█", filled);
    let empty = text::repeat("░", HEADER_BAR - filled);
    let window = format_tokens(max, &figures.window);
    let total = format_tokens(attr.total_input_tokens, &figures.total);
    "Context window: ".to_owned().concat(&window).concat(" tokens  [").concat(&full).concat(
        &empty,
    ).concat("] ").concat(&total).concat(" / ").concat(&window).concat(" (").concat(
        &figures.percent,
    ).concat("%)")
}

/// The lines on the cache.
pub open spec fn cache_text(attr: ContextAttribution, f: Figures) -> Seq<char> {
    (if attr.total_input_tokens > 0 {
        "Cache hit ratio: "@ + f.hit_ratio@ + "% (cache_read="@ + amount(
            attr.cache_read_tokens,
            f.cache_read@,
        ) + " / total_input="@ + amount(attr.total_input_tokens, f.total@) + ")\n"@
    } else {
        Seq::empty()
    }) + (if attr.cache_creation_tokens > 0 {
        "Cache creation: "@ + amount(attr.cache_creation_tokens, f.cache_creation@) + " tokens\n"@
    } else {
        Seq::empty()
    })
}

/// The lines on the cache.
pub fn render_cache_info(attr: &ContextAttribution, figures: &Figures) -> (r: String)
    ensures
        r@ == cache_text(*attr, *figures),
{
    let reads = if attr.total_input_tokens > 0 {
        let read = format_tokens(attr.cache_read_tokens, &figures.cache_read);
        let total = format_tokens(attr.total_input_tokens, &figures.total);
        "Cache hit ratio: ".to_owned().concat(&figures.hit_ratio).concat("% (cache_read=").concat(
            &read,
        ).concat(" / total_input=").concat(&total).concat(")\n")
    } else {
        String::new()
    };
    proof {
        if attr.total_input_tokens == 0 {
            assert(reads@ =~= Seq::empty());
        }
    }
    let writes = if attr.cache_creation_tokens > 0 {
        let creation = format_tokens(attr.cache_creation_tokens, &figures.cache_creation);
        "Cache creation: ".to_owned().concat(&creation).concat(" tokens\n")
    } else {
        String::new()
    };
    proof {
        if attr.cache_creation_tokens == 0 {
            assert(writes@ =~= Seq::empty());
        }
    }
    reads.concat(&writes)
}

/// The line of the `i`-th tool.
pub open spec fn tool_text(i: int, t: ToolAttribution, scaled: Seq<char>) -> Seq<char> {
    "  "@ + text::decimal_view((i + 1) as nat) + ". "@ + text::padded(t.tool_name@, 20) + " "@
        + text::decimal_view(t.call_count as nat) + " calls, "@ + amount(
        t.total_result_bytes,
        scaled,
    ) + " bytes result"@ + (if t.error_count > 0 {
        " ("@ + text::decimal_view(t.error_count as nat) + " errors)"@
    } else {
        Seq::empty()
    }) + "\n"@
}

/// The lines of the first `k` tools.
pub open spec fn tools_text(
    tools: Seq<ToolAttribution>,
    scaled: Seq<Seq<char>>,
    k: int,
) -> Seq<char>
    decreases k,
{
    if k <= 0 {
        Seq::empty()
    } else {
        tools_text(tools, scaled, k - 1) + tool_text(k - 1, tools[k - 1], scaled[k - 1])
    }
}

/// How many of `n` tools are listed.
pub open spec fn listed(n: nat) -> nat {
    if n < TOP_TOOLS {
        n
    } else {
        TOP_TOOLS as nat
    }
}

fn tool_line(i: usize, t: &ToolAttribution, scaled: &str) -> (r: String)
    requires
        i < TOP_TOOLS,
    ensures
        r@ == tool_text(i as int, *t, scaled@),
{
    let place = text::decimal(i as u64 + 1);
    let name = text::pad(&t.tool_name, 20);
    let calls = text::decimal(t.call_count as u64);
    let bytes = format_tokens(t.total_result_bytes, scaled);
    let errors = if t.error_count > 0 {
        let n = text::decimal(t.error_count as u64);
        " (".to_owned().concat(&n).concat(" errors)")
    } else {
        String::new()
    };
    proof {
        if t.error_count == 0 {
            assert(errors@ =~= Seq::empty());
        }
    }
    "  ".to_owned().concat(&place).concat(". ").concat(&name).concat(" ").concat(&calls).concat(
        " calls, ",
    ).concat(&bytes).concat(" bytes result").concat(&errors).concat("\n")
}

/// The tools that contributed most: the first ten of `tools`. `scaled` holds for each of these the
/// bytes of its results divided by their [`token_divisor`].
pub fn render_top_consumers(tools: &Vec<ToolAttribution>, scaled: &Vec<String>) -> (r: String)
    requires
        scaled@.len() >= listed(tools@.len()),
    ensures
        r@ == "Top tool consumers:\n"@ + tools_text(
            tools@,
            scaled.deep_view(),
            listed(tools@.len()) as int,
        ),
{
    let n: usize = if tools.len() < TOP_TOOLS {
        tools.len()
    } else {
        TOP_TOOLS
    };
    let mut r: String = "Top tool consumers:\n".to_owned();
    let mut i: usize = 0;
    proof {
        assert(r@ + Seq::<char>::empty() =~= r@);
    }
    while i < n
        invariant
            i <= n,
            n == listed(tools@.len()),
            n <= tools@.len(),
            n <= TOP_TOOLS,
            n <= scaled@.len(),
            r@ == "Top tool consumers:\n"@ + tools_text(tools@, scaled.deep_view(), i as int),
        decreases n - i,
    {
        let line = tool_line(i, &tools[i], &scaled[i]);
        let ghost before = r@;
        r.append(&line);
        proof {
            assert(scaled.deep_view()[i as int] == scaled@[i as int]@);
            assert(r@ =~= "Top tool consumers:\n"@ + tools_text(
                tools@,
                scaled.deep_view(),
                i + 1,
            ));
        }
        i += 1;
    }
    r
}

/// The map.
pub open spec fn map_text(attr: ContextAttribution, width: u16, f: Figures) -> Seq<char> {
    let regions = regions_view(attr, f.shares);
    header_text(attr, f) + "\n"@ + tree_text(
        tree_view(regions),
        layout_view(attr, regions, width),
        f.lines@,
        tree_view(regions).len() as int,
    ) + (if attr.cache_read_tokens > 0 || attr.cache_creation_tokens > 0 {
        "\n"@ + cache_text(attr, f)
    } else {
        Seq::empty()
    }) + (if attr.tool_attribution@.len() > 0 {
        "\n"@ + "Top tool consumers:\n"@ + tools_text(
            attr.tool_attribution@,
            f.tool_bytes.deep_view(),
            listed(attr.tool_attribution@.len()) as int,
        )
    } else {
        Seq::empty()
    })
}

/// The map of a context at the width `width`: the header, the regions, what is known of the cache
/// if it was used, and the tools if there were any. There is one of `figures.lines` for each line
/// of [`tree_lines`], and one of `figures.tool_bytes` for each listed tool.
pub fn render(attr: &ContextAttribution, width: u16, figures: &Figures) -> (r: String)
    requires
        figures.lines@.len() == tree_view(regions_view(*attr, figures.shares)).len(),
        figures.tool_bytes@.len() >= listed(attr.tool_attribution@.len()),
    ensures
        r@ == map_text(*attr, width, *figures),
{
    let tree = render_region_tree(attr, width, figures);
    let cache = if attr.cache_read_tokens > 0 || attr.cache_creation_tokens > 0 {
        let lines = render_cache_info(attr, figures);
        "\n".to_owned().concat(&lines)
    } else {
        let none = String::new();
        proof {
            assert(none@ =~= Seq::empty());
        }
        none
    };
    let tools = if attr.tool_attribution.len() > 0 {
        let lines = render_top_consumers(&attr.tool_attribution, &figures.tool_bytes);
        let tools = "\n".to_owned().concat(&lines);
        proof {
            assert(tools@ =~= "\n"@ + "Top tool consumers:\n"@ + tools_text(
                attr.tool_attribution@,
                figures.tool_bytes.deep_view(),
                listed(attr.tool_attribution@.len()) as int,
            ));
        }
        tools
    } else {
        let none = String::new();
        proof {
            assert(none@ =~= Seq::empty());
        }
        none
    };
    render_header(attr, figures).concat("\n").concat(&tree).concat(&cache).concat(&tools)
}

/// What is used and what is free make up a window that is not full, and the free room stands last.
pub proof fn law_free_room_completes_the_window(attr: ContextAttribution, sh: Shares)
    requires
        attr.window_max is Some,
        attr.total_input_tokens < attr.window_max->0,
    ensures
        ({
            let r = regions_view(attr, sh);
            &&& r.len() > 0
            &&& r.last().is_free
            &&& r.last().tokens + attr.total_input_tokens == attr.window_max->0
            &&& forall|i: int| 0 <= i < r.len() - 1 ==> !(#[trigger] r[i]).is_free
        }),
{
}

/// The map has a line for each region and for each part of one, whatever the width.
pub proof fn law_each_part_has_a_line(regions: Seq<RegionView>, k: int)
    requires
        0 <= k <= regions.len(),
    ensures
        lines_of(regions, k).len() == part_count(regions, k),
    decreases k,
{
    if k > 0 {
        law_each_part_has_a_line(regions, k - 1);
    }
}

/// How many regions and parts there are among the first `k` regions.
pub open spec fn part_count(regions: Seq<RegionView>, k: int) -> nat
    decreases k,
{
    if k <= 0 {
        0
    } else {
        part_count(regions, k - 1) + 1 + regions[k - 1].children.len()
    }
}

/// The first line opens the tree.
pub proof fn law_first_line_opens_the_tree(regions: Seq<RegionView>, k: int)
    requires
        0 < k <= regions.len(),
    ensures
        lines_of(regions, k).len() > 0,
        lines_of(regions, k)[0].prefix == "┌─"@,
    decreases k,
{
    if k > 1 {
        law_first_line_opens_the_tree(regions, k - 1);
    } else {
        assert(lines_of(regions, 0).len() == 0);
    }
}

/// A line whose bar, amount and percentage fit their columns has the same length as every other
/// such line on its level: the columns line up.
pub proof fn law_columns_line_up(
    line: TreeLineView,
    l: LineLayout,
    rounded: usize,
    scaled: Seq<char>,
    percent: Seq<char>,
)
    requires
        rounded <= l.bar_budget,
        1 <= l.bar_budget,
        (amount(line.tokens, scaled) + " tokens"@).len() <= l.token_col_width,
        percent.len() <= 5,
    ensures
        line_text(line, l, rounded, scaled, percent).len() == line.prefix.len()
            + line_label_width(line, l) + l.bar_budget + l.token_col_width + 14,
{
    reveal_strlit(" ");
    reveal_strlit("  (");
    reveal_strlit("%)\n");
    let lw = line_label_width(line, l);
    assert(cut(line.label, lw).len() <= lw);
}

/// Whether a region and its parts have labels within one line.
spec fn plain_labels(r: RegionView) -> bool {
    &&& json::one_line(r.label)
    &&& forall|j: int| 0 <= j < r.children.len() ==> json::one_line((#[trigger] r.children[j]).0)
}

proof fn lemma_counted_line(name: Seq<char>, n: u32)
    requires
        json::one_line(name),
    ensures
        json::one_line(counted(name, n)),
{
    reveal_strlit(" (");
    reveal_strlit(")");
    text::lemma_decimal_line(n as nat);
    json::lemma_one_line(name, " ("@);
    json::lemma_one_line(name + " ("@, text::decimal_view(n as nat));
    json::lemma_one_line(name + " ("@ + text::decimal_view(n as nat), ")"@);
}

proof fn lemma_conversation_labels(call: ModelCallAttribution, sh: Shares)
    ensures
        plain_labels(conversation(call, sh)),
{
    reveal_strlit("Conversation (");
    reveal_strlit(" msgs)");
    reveal_strlit("User messages");
    reveal_strlit("Tool results");
    reveal_strlit("Assistant messages");
    let n = text::decimal_view(call.message_count as nat);
    text::lemma_decimal_line(call.message_count as nat);
    json::lemma_one_line("Conversation ("@, n);
    json::lemma_one_line("Conversation ("@ + n, " msgs)"@);
    lemma_counted_line("User messages"@, call.user_message_count);
    lemma_counted_line("Tool results"@, call.tool_result_count);
    lemma_counted_line("Assistant messages"@, call.assistant_message_count);
}

proof fn lemma_region_labels(attr: ContextAttribution, sh: Shares)
    ensures
        forall|i: int|
            0 <= i < regions_view(attr, sh).len() ==> plain_labels(
                #[trigger] regions_view(attr, sh)[i],
            ),
{
    reveal_strlit("Tool schemas");
    reveal_strlit("Input tokens");
    reveal_strlit("Output tokens");
    reveal_strlit("Free");
    if attr.model_calls@.len() > 0 {
        let call = attr.model_calls@.last();
        lemma_counted_line("Tool schemas"@, call.tool_count);
        lemma_conversation_labels(call, sh);
    }
}

proof fn lemma_line_labels(regions: Seq<RegionView>, k: int)
    requires
        0 <= k <= regions.len(),
        forall|i: int| 0 <= i < regions.len() ==> plain_labels(#[trigger] regions[i]),
    ensures
        forall|i: int|
            0 <= i < lines_of(regions, k).len() ==> json::one_line(
                (#[trigger] lines_of(regions, k)[i]).label,
            ),
    decreases k,
{
    if k > 0 {
        lemma_line_labels(regions, k - 1);
        let r = regions[k - 1];
        let before = lines_of(regions, k - 1);
        let all = lines_of(regions, k);
        assert(plain_labels(r));
        assert forall|i: int| 0 <= i < all.len() implies json::one_line(
            (#[trigger] all[i]).label,
        ) by {
            if i < before.len() {
                assert(all[i] == before[i]);
            } else if i > before.len() {
                assert(all[i].label == r.children[i - before.len() - 1].0);
            }
        }
    }
}

/// The line breaks of a line are those of its prefix, its amount and its percentage, and the one
/// at its end.
proof fn lemma_line_breaks(
    line: TreeLineView,
    l: LineLayout,
    rounded: usize,
    scaled: Seq<char>,
    percent: Seq<char>,
)
    requires
        json::one_line(line.label),
    ensures
        text::breaks(line_text(line, l, rounded, scaled, percent)) == text::breaks(line.prefix)
            + text::breaks(
            text::right_aligned(
                amount(line.tokens, scaled) + " tokens"@,
                l.token_col_width as nat,
            ),
        ) + text::breaks(text::right_aligned(percent, 5)) + 1,
{
    reveal_strlit(" ");
    reveal_strlit("  (");
    reveal_strlit("%)\n");
    let lw = line_label_width(line, l);
    let label = text::padded(cut(line.label, lw), lw as nat);
    let bar = text::padded(bar_view(line, rounded), l.bar_budget as nat);
    let tokens = text::right_aligned(
        amount(line.tokens, scaled) + " tokens"@,
        l.token_col_width as nat,
    );
    let share = text::right_aligned(percent, 5);
    assert(json::one_line(label)) by {
        assert forall|i: int| 0 <= i < label.len() implies label[i] != '\n' by {
            if i < cut(line.label, lw).len() {
                assert(label[i] == line.label[i]);
                assert(line.label.contains(line.label[i]));
            }
        }
    }
    assert(json::one_line(bar));
    assert(json::one_line(" "@));
    assert(json::one_line("  ("@));
    text::lemma_no_breaks(label);
    text::lemma_no_breaks(bar);
    text::lemma_no_breaks(" "@);
    text::lemma_no_breaks("  ("@);
    let end = "%)\n"@;
    assert(text::breaks(end) == 1) by {
        let q = |c: char| c == '\n';
        reveal(Seq::filter);
        seqs::lemma_filter_none(end.drop_last(), q);
        assert(end.last() == '\n');
    }
    let t1 = line.prefix + " "@;
    text::lemma_breaks_add(line.prefix, " "@);
    text::lemma_breaks_add(t1, label);
    text::lemma_breaks_add(t1 + label, " "@);
    let t2 = t1 + label + " "@;
    text::lemma_breaks_add(t2, bar);
    text::lemma_breaks_add(t2 + bar, " "@);
    let t3 = t2 + bar + " "@;
    text::lemma_breaks_add(t3, tokens);
    text::lemma_breaks_add(t3 + tokens, "  ("@);
    let t4 = t3 + tokens + "  ("@;
    text::lemma_breaks_add(t4, share);
    text::lemma_breaks_add(t4 + share, end);
}

/// Whether the figures are each within one line, as numbers are.
pub open spec fn in_one_line(f: Figures) -> bool {
    &&& json::one_line(f.window@)
    &&& json::one_line(f.total@)
    &&& json::one_line(f.percent@)
    &&& json::one_line(f.hit_ratio@)
    &&& json::one_line(f.cache_read@)
    &&& json::one_line(f.cache_creation@)
    &&& forall|i: int|
        0 <= i < f.lines@.len() ==> json::one_line((#[trigger] f.lines@[i]).scaled@)
            && json::one_line(f.lines@[i].percent@)
    &&& forall|i: int| 0 <= i < f.tool_bytes@.len() ==> json::one_line(#[trigger] f.tool_bytes@[i]@)
}

proof fn lemma_amount_line(n: u64, scaled: Seq<char>)
    requires
        json::one_line(scaled),
    ensures
        json::one_line(amount(n, scaled)),
{
    reveal_strlit("M");
    reveal_strlit("K");
    text::lemma_decimal_line(n as nat);
    json::lemma_one_line(scaled, "M"@);
    json::lemma_one_line(scaled, "K"@);
}

proof fn lemma_aligned_line(s: Seq<char>, w: nat)
    requires
        json::one_line(s),
    ensures
        json::one_line(text::right_aligned(s, w)),
{
    if s.len() < w {
        json::lemma_one_line(text::repeated(' ', (w - s.len()) as nat), s);
    }
}

/// A line of the tree is one line.
proof fn lemma_tree_line(
    line: TreeLineView,
    l: LineLayout,
    rounded: usize,
    scaled: Seq<char>,
    percent: Seq<char>,
)
    requires
        json::one_line(line.label),
        json::one_line(line.prefix),
        json::one_line(scaled),
        json::one_line(percent),
    ensures
        text::breaks(line_text(line, l, rounded, scaled, percent)) == 1,
{
    reveal_strlit(" tokens");
    lemma_line_breaks(line, l, rounded, scaled, percent);
    lemma_amount_line(line.tokens, scaled);
    let tokens = amount(line.tokens, scaled) + " tokens"@;
    json::lemma_one_line(amount(line.tokens, scaled), " tokens"@);
    lemma_aligned_line(tokens, l.token_col_width as nat);
    lemma_aligned_line(percent, 5);
    text::lemma_no_breaks(line.prefix);
    text::lemma_no_breaks(text::right_aligned(tokens, l.token_col_width as nat));
    text::lemma_no_breaks(text::right_aligned(percent, 5));
}

proof fn lemma_prefixes(regions: Seq<RegionView>, k: int)
    requires
        0 <= k <= regions.len(),
    ensures
        forall|i: int|
            0 <= i < lines_of(regions, k).len() ==> json::one_line(
                (#[trigger] lines_of(regions, k)[i]).prefix,
            ),
    decreases k,
{
    reveal_strlit("┌─");
    reveal_strlit("└─");
    reveal_strlit("├─");
    reveal_strlit("   └─");
    reveal_strlit("   ├─");
    reveal_strlit("│  └─");
    reveal_strlit("│  ├─");
    if k > 0 {
        lemma_prefixes(regions, k - 1);
        let before = lines_of(regions, k - 1);
        let all = lines_of(regions, k);
        let children = regions[k - 1].children;
        assert forall|i: int| 0 <= i < all.len() implies json::one_line(
            (#[trigger] all[i]).prefix,
        ) by {
            if i < before.len() {
                assert(all[i] == before[i]);
            } else if i > before.len() {
                assert(all[i].prefix == child_prefix(
                    k == regions.len(),
                    i - before.len() - 1,
                    children.len() as int,
                ));
            }
        }
    }
}

proof fn lemma_tree_breaks(
    lines: Seq<TreeLineView>,
    l: LineLayout,
    f: Seq<LineFigures>,
    k: int,
)
    requires
        0 <= k <= lines.len(),
        k <= f.len(),
        forall|i: int|
            0 <= i < lines.len() ==> json::one_line((#[trigger] lines[i]).label) && json::one_line(
                lines[i].prefix,
            ),
        forall|i: int|
            0 <= i < f.len() ==> json::one_line((#[trigger] f[i]).scaled@) && json::one_line(
                f[i].percent@,
            ),
    ensures
        text::breaks(tree_text(lines, l, f, k)) == k,
    decreases k,
{
    if k > 0 {
        lemma_tree_breaks(lines, l, f, k - 1);
        let line = lines[k - 1];
        let a = f[k - 1];
        assert(json::one_line(line.label) && json::one_line(a.scaled@));
        lemma_tree_line(line, l, a.bar, a.scaled@, a.percent@);
        text::lemma_breaks_add(
            tree_text(lines, l, f, k - 1),
            line_text(line, l, a.bar, a.scaled@, a.percent@),
        );
    } else {
        text::lemma_no_breaks(Seq::empty());
    }
}

/// Which regions and parts there are does not depend on how the tokens are shared.
proof fn lemma_part_count(attr: ContextAttribution, s: Shares, t: Shares, k: int)
    requires
        0 <= k <= regions_view(attr, s).len(),
    ensures
        regions_view(attr, s).len() == regions_view(attr, t).len(),
        part_count(regions_view(attr, s), k) == part_count(regions_view(attr, t), k),
    decreases k,
{
    let a = regions_view(attr, s);
    let b = regions_view(attr, t);
    assert(input_regions(attr, s).len() == input_regions(attr, t).len());
    assert forall|i: int| 0 <= i < a.len() implies (#[trigger] a[i]).children.len()
        == b[i].children.len() by {
        if i < input_regions(attr, s).len() {
            assert(a[i] == input_regions(attr, s)[i] && b[i] == input_regions(attr, t)[i]);
        }
    }
    if k > 0 {
        lemma_part_count(attr, s, t, k - 1);
        assert(a[k - 1].children.len() == b[k - 1].children.len());
    }
}

proof fn lemma_header_line(attr: ContextAttribution, f: Figures)
    requires
        in_one_line(f),
    ensures
        json::one_line(header_text(attr, f)),
{
    reveal_strlit("Context window: ");
    reveal_strlit(" tokens  [");
    reveal_strlit("] ");
    reveal_strlit(" / ");
    reveal_strlit(" (");
    reveal_strlit("%)");
    let filled = header_filled(attr, f.filled);
    let window = amount(window_of(attr), f.window@);
    let total = amount(attr.total_input_tokens, f.total@);
    lemma_amount_line(window_of(attr), f.window@);
    lemma_amount_line(attr.total_input_tokens, f.total@);
    let full = text::repeated('█', filled);
    let empty = text::repeated('░', (HEADER_BAR - filled) as nat);
    assert(json::one_line(full) && json::one_line(empty));
    let t1 = "Context window: "@ + window;
    json::lemma_one_line("Context window: "@, window);
    json::lemma_one_line(t1, " tokens  ["@);
    let t2 = t1 + " tokens  ["@;
    json::lemma_one_line(t2, full);
    json::lemma_one_line(t2 + full, empty);
    let t3 = t2 + full + empty;
    json::lemma_one_line(t3, "] "@);
    json::lemma_one_line(t3 + "] "@, total);
    let t4 = t3 + "] "@ + total;
    json::lemma_one_line(t4, " / "@);
    json::lemma_one_line(t4 + " / "@, window);
    let t5 = t4 + " / "@ + window;
    json::lemma_one_line(t5, " ("@);
    json::lemma_one_line(t5 + " ("@, f.percent@);
    json::lemma_one_line(t5 + " ("@ + f.percent@, "%)"@);
}

/// A text within one line and a line break have one line break together.
proof fn lemma_ended_line(s: Seq<char>)
    requires
        json::one_line(s),
    ensures
        text::breaks(s + "\n"@) == 1,
{
    reveal_strlit("\n");
    text::lemma_no_breaks(s);
    text::lemma_breaks_add(s, "\n"@);
    let q = |c: char| c == '\n';
    reveal(Seq::filter);
    assert("\n"@.drop_last() =~= Seq::empty());
    assert("\n"@.last() == '\n');
}

proof fn lemma_cache_breaks(attr: ContextAttribution, f: Figures)
    requires
        in_one_line(f),
    ensures
        text::breaks(cache_text(attr, f)) == cache_lines(attr),
{
    reveal_strlit("Cache hit ratio: ");
    reveal_strlit("% (cache_read=");
    reveal_strlit(" / total_input=");
    reveal_strlit(")\n");
    reveal_strlit(")");
    reveal_strlit("\n");
    reveal_strlit("Cache creation: ");
    reveal_strlit(" tokens\n");
    reveal_strlit(" tokens");
    let read = amount(attr.cache_read_tokens, f.cache_read@);
    let total = amount(attr.total_input_tokens, f.total@);
    let creation = amount(attr.cache_creation_tokens, f.cache_creation@);
    lemma_amount_line(attr.cache_read_tokens, f.cache_read@);
    lemma_amount_line(attr.total_input_tokens, f.total@);
    lemma_amount_line(attr.cache_creation_tokens, f.cache_creation@);
    let a1 = "Cache hit ratio: "@ + f.hit_ratio@;
    json::lemma_one_line("Cache hit ratio: "@, f.hit_ratio@);
    json::lemma_one_line(a1, "% (cache_read="@);
    json::lemma_one_line(a1 + "% (cache_read="@, read);
    let a2 = a1 + "% (cache_read="@ + read;
    json::lemma_one_line(a2, " / total_input="@);
    json::lemma_one_line(a2 + " / total_input="@, total);
    let a3 = a2 + " / total_input="@ + total;
    json::lemma_one_line(a3, ")"@);
    lemma_ended_line(a3 + ")"@);
    assert(a3 + ")\n"@ =~= a3 + ")"@ + "\n"@);
    let b1 = "Cache creation: "@ + creation;
    json::lemma_one_line("Cache creation: "@, creation);
    json::lemma_one_line(b1, " tokens"@);
    lemma_ended_line(b1 + " tokens"@);
    assert(b1 + " tokens\n"@ =~= b1 + " tokens"@ + "\n"@);
    let none = Seq::<char>::empty();
    text::lemma_no_breaks(none);
    let reads = if attr.total_input_tokens > 0 {
        a3 + ")\n"@
    } else {
        none
    };
    let writes = if attr.cache_creation_tokens > 0 {
        b1 + " tokens\n"@
    } else {
        none
    };
    text::lemma_breaks_add(reads, writes);
}

/// How many lines there are on the cache.
pub open spec fn cache_lines(attr: ContextAttribution) -> nat {
    (if attr.total_input_tokens > 0 {
        1nat
    } else {
        0
    }) + (if attr.cache_creation_tokens > 0 {
        1nat
    } else {
        0
    })
}

/// How many lines the first `k` tools take: one each, and what line breaks their names hold.
pub open spec fn tool_lines(tools: Seq<ToolAttribution>, k: int) -> nat
    decreases k,
{
    if k <= 0 {
        0
    } else {
        tool_lines(tools, k - 1) + 1 + text::breaks(tools[k - 1].tool_name@)
    }
}

proof fn lemma_tool_breaks(i: int, t: ToolAttribution, scaled: Seq<char>)
    requires
        0 <= i,
        json::one_line(scaled),
    ensures
        text::breaks(tool_text(i, t, scaled)) == 1 + text::breaks(t.tool_name@),
{
    reveal_strlit("  ");
    reveal_strlit(". ");
    reveal_strlit(" ");
    reveal_strlit(" calls, ");
    reveal_strlit(" bytes result");
    reveal_strlit(" (");
    reveal_strlit(" errors)");
    let place = text::decimal_view((i + 1) as nat);
    let calls = text::decimal_view(t.call_count as nat);
    let count = text::decimal_view(t.error_count as nat);
    let bytes = amount(t.total_result_bytes, scaled);
    text::lemma_decimal_line((i + 1) as nat);
    text::lemma_decimal_line(t.call_count as nat);
    text::lemma_decimal_line(t.error_count as nat);
    lemma_amount_line(t.total_result_bytes, scaled);
    let errors = if t.error_count > 0 {
        " ("@ + count + " errors)"@
    } else {
        Seq::empty()
    };
    json::lemma_one_line(" ("@, count);
    json::lemma_one_line(" ("@ + count, " errors)"@);
    let head = "  "@ + place + ". "@;
    json::lemma_one_line("  "@, place);
    json::lemma_one_line("  "@ + place, ". "@);
    let name = text::padded(t.tool_name@, 20);
    if t.tool_name@.len() < 20 {
        let blanks = text::repeated(' ', (20 - t.tool_name@.len()) as nat);
        assert(json::one_line(blanks));
        text::lemma_no_breaks(blanks);
        text::lemma_breaks_add(t.tool_name@, blanks);
    }
    let tail = " "@ + calls + " calls, "@ + bytes + " bytes result"@ + errors;
    json::lemma_one_line(" "@, calls);
    json::lemma_one_line(" "@ + calls, " calls, "@);
    json::lemma_one_line(" "@ + calls + " calls, "@, bytes);
    json::lemma_one_line(" "@ + calls + " calls, "@ + bytes, " bytes result"@);
    json::lemma_one_line(" "@ + calls + " calls, "@ + bytes + " bytes result"@, errors);
    lemma_ended_line(tail);
    text::lemma_no_breaks(head);
    text::lemma_breaks_add(head, name);
    text::lemma_breaks_add(head + name, tail + "\n"@);
    assert(tool_text(i, t, scaled) =~= head + name + (tail + "\n"@));
}

proof fn lemma_tools_breaks(tools: Seq<ToolAttribution>, scaled: Seq<Seq<char>>, k: int)
    requires
        0 <= k <= scaled.len(),
        forall|i: int| 0 <= i < scaled.len() ==> json::one_line(#[trigger] scaled[i]),
    ensures
        text::breaks(tools_text(tools, scaled, k)) == tool_lines(tools, k),
    decreases k,
{
    if k > 0 {
        lemma_tools_breaks(tools, scaled, k - 1);
        assert(json::one_line(scaled[k - 1]));
        lemma_tool_breaks(k - 1, tools[k - 1], scaled[k - 1]);
        text::lemma_breaks_add(
            tools_text(tools, scaled, k - 1),
            tool_text(k - 1, tools[k - 1], scaled[k - 1]),
        );
    } else {
        text::lemma_no_breaks(Seq::empty());
    }
}

/// How many lines the map has: the header, one for each region and part, those on the cache behind
/// an empty one, and those on the tools behind an empty one and a title.
pub open spec fn map_lines(attr: ContextAttribution) -> nat {
    let regions = regions_view(attr, Shares { user: 0, assistant: 0, tool_results: 0 });
    1 + part_count(regions, regions.len() as int) + (if attr.cache_read_tokens > 0
        || attr.cache_creation_tokens > 0 {
        1 + cache_lines(attr)
    } else {
        0
    }) + (if attr.tool_attribution@.len() > 0 {
        2 + tool_lines(attr.tool_attribution@, listed(attr.tool_attribution@.len()) as int)
    } else {
        0
    })
}

/// The number of lines of the map depends on the context alone: neither on the width nor on the
/// figures, which are numbers.
#[verifier::rlimit(60)]
#[verifier::spinoff_prover]
pub proof fn law_the_context_fixes_the_lines(attr: ContextAttribution, width: u16, f: Figures)
    requires
        in_one_line(f),
        f.lines@.len() == tree_view(regions_view(attr, f.shares)).len(),
        f.tool_bytes@.len() >= listed(attr.tool_attribution@.len()),
    ensures
        text::breaks(map_text(attr, width, f)) == map_lines(attr),
{
    let zero = Shares { user: 0, assistant: 0, tool_results: 0 };
    let regions = regions_view(attr, f.shares);
    let n = regions.len() as int;
    let lines = tree_view(regions);
    let l = layout_view(attr, regions, width);
    lemma_region_labels(attr, f.shares);
    lemma_line_labels(regions, n);
    lemma_prefixes(regions, n);
    lemma_tree_breaks(lines, l, f.lines@, lines.len() as int);
    law_each_part_has_a_line(regions, n);
    lemma_part_count(attr, f.shares, zero, n);
    let head = header_text(attr, f) + "\n"@;
    lemma_header_line(attr, f);
    lemma_ended_line(header_text(attr, f));
    let tree = tree_text(lines, l, f.lines@, lines.len() as int);
    let none = Seq::<char>::empty();
    text::lemma_no_breaks(none);
    lemma_ended_line(none);
    assert(none + "\n"@ =~= "\n"@);
    let cache = if attr.cache_read_tokens > 0 || attr.cache_creation_tokens > 0 {
        lemma_cache_breaks(attr, f);
        text::lemma_breaks_add("\n"@, cache_text(attr, f));
        "\n"@ + cache_text(attr, f)
    } else {
        none
    };
    let k = listed(attr.tool_attribution@.len()) as int;
    let scaled = f.tool_bytes.deep_view();
    let list = tools_text(attr.tool_attribution@, scaled, k);
    assert forall|i: int| 0 <= i < scaled.len() implies json::one_line(#[trigger] scaled[i]) by {
        assert(json::one_line(f.tool_bytes@[i]@));
    }
    lemma_tools_breaks(attr.tool_attribution@, scaled, k);
    let title = "Top tool consumers:\n"@;
    assert(text::breaks(title) == 1) by {
        reveal_strlit("Top tool consumers:\n");
        reveal_strlit("Top tool consumers:");
        reveal_strlit("\n");
        lemma_ended_line("Top tool consumers:"@);
        assert(title =~= "Top tool consumers:"@ + "\n"@);
    }
    text::lemma_breaks_add("\n"@, title);
    text::lemma_breaks_add("\n"@ + title, list);
    let tools = if attr.tool_attribution@.len() > 0 {
        "\n"@ + title + list
    } else {
        none
    };
    text::lemma_breaks_add(head, tree);
    text::lemma_breaks_add(head + tree, cache);
    text::lemma_breaks_add(head + tree + cache, tools);
    assert(map_text(attr, width, f) == head + tree + cache + tools);
}

/// The map has the same number of lines at every width.
pub proof fn law_lines_do_not_depend_on_the_width(
    attr: ContextAttribution,
    v: u16,
    w: u16,
    f: Figures,
    g: Figures,
)
    requires
        in_one_line(f),
        in_one_line(g),
        f.lines@.len() == tree_view(regions_view(attr, f.shares)).len(),
        g.lines@.len() == tree_view(regions_view(attr, g.shares)).len(),
        f.tool_bytes@.len() >= listed(attr.tool_attribution@.len()),
        g.tool_bytes@.len() >= listed(attr.tool_attribution@.len()),
    ensures
        text::breaks(map_text(attr, v, f)) == text::breaks(map_text(attr, w, g)),
{
    law_the_context_fixes_the_lines(attr, v, f);
    law_the_context_fixes_the_lines(attr, w, g);
}

/// The map begins with the header, and the header says what it is. Where the figures are within
/// one line, the header is the first line.
pub proof fn law_the_header_stands_first(attr: ContextAttribution, width: u16, f: Figures)
    ensures
        text::has_prefix(map_text(attr, width, f), header_text(attr, f) + "\n"@),
        text::has_prefix(header_text(attr, f), "Context window: "@),
        in_one_line(f) ==> json::one_line(header_text(attr, f)),
{
    let head = header_text(attr, f) + "\n"@;
    assert(map_text(attr, width, f).take(head.len() as int) =~= head);
    let start = "Context window: "@;
    assert(header_text(attr, f).take(start.len() as int) =~= start);
    if in_one_line(f) {
        lemma_header_line(attr, f);
    }
}

/// Amounts are shown in full below ten thousand, in thousands up to a million, and in millions from
/// there on.
pub proof fn law_amounts_are_scaled(n: u64, scaled: Seq<char>)
    ensures
        n < 10_000 ==> divisor(n) == 1 && amount(n, scaled) == text::decimal_view(n as nat),
        10_000 <= n < 1_000_000 ==> divisor(n) == 1_000 && amount(n, scaled) == scaled.push('K'),
        n >= 1_000_000 ==> divisor(n) == 1_000_000 && amount(n, scaled) == scaled.push('M'),
{
    reveal_strlit("K");
    reveal_strlit("M");
    assert(scaled + "K"@ =~= scaled.push('K'));
    assert(scaled + "M"@ =~= scaled.push('M'));
}

/// The prompt that is divided up is that of the latest call if it reported one, and else all input.
/// A hundred and fifty tokens of it go to each tool schema, and the messages have the rest.
pub proof fn law_schemas_and_messages_make_up_the_prompt(
    attr: ContextAttribution,
    call: ModelCallAttribution,
)
    requires
        attr.model_calls@.len() > 0,
        call == attr.model_calls@.last(),
    ensures
        call.usage is Some ==> snapshot(attr) == agent::count(call.usage->0, 0),
        call.usage is None ==> snapshot(attr) == attr.total_input_tokens,
        schema_tokens(call) == 150 * call.tool_count,
        schema_tokens(call) <= snapshot(attr) ==> schema_tokens(call) + messages_left(attr, call)
            == snapshot(attr),
        schema_tokens(call) > snapshot(attr) ==> messages_left(attr, call) == 0,
{
    assert(call.tool_count * SCHEMA_TOKENS <= u64::MAX);
}

/// The conversation has a part for each kind of message that there is, with the tokens that go to
/// that kind: users first, then results of tools, then the assistant.
#[verifier::rlimit(60)]
#[verifier::spinoff_prover]
pub proof fn law_the_conversation_has_a_part_for_each_kind(call: ModelCallAttribution, sh: Shares)
    ensures
        ({
            let parts = conversation_parts(call, sh);
            let users = call.user_message_count > 0;
            let results = call.tool_result_count > 0;
            let assistants = call.assistant_message_count > 0;
            let i: int = if users {
                1
            } else {
                0
            };
            let j: int = if results {
                i + 1
            } else {
                i
            };
            &&& parts.len() == if assistants {
                j + 1
            } else {
                j
            }
            &&& users ==> parts[0].0 == "User messages ("@ + text::decimal_view(
                call.user_message_count as nat,
            ) + ")"@ && parts[0].1 == sh.user
            &&& results ==> parts[i].0 == "Tool results ("@ + text::decimal_view(
                call.tool_result_count as nat,
            ) + ")"@ && parts[i].1 == sh.tool_results
            &&& assistants ==> parts[j].0 == "Assistant messages ("@ + text::decimal_view(
                call.assistant_message_count as nat,
            ) + ")"@ && parts[j].1 == sh.assistant
            &&& conversation(call, sh).children == parts
            &&& !conversation(call, sh).is_free
            &&& sh.user + sh.assistant + sh.tool_results <= u64::MAX ==> conversation(
                call,
                sh,
            ).tokens == sh.user + sh.assistant + sh.tool_results
            &&& conversation(call, sh).label == "Conversation ("@ + text::decimal_view(
                call.message_count as nat,
            ) + " msgs)"@
        }),
{
    reveal_strlit("User messages");
    reveal_strlit("Tool results");
    reveal_strlit("Assistant messages");
    reveal_strlit(" (");
    reveal_strlit("User messages (");
    reveal_strlit("Tool results (");
    reveal_strlit("Assistant messages (");
    assert("User messages"@ + " ("@ =~= "User messages ("@);
    assert("Tool results"@ + " ("@ =~= "Tool results ("@);
    assert("Assistant messages"@ + " ("@ =~= "Assistant messages ("@);
}

/// From top to bottom the map shows the schemas of tools if there are any and the conversation, or
/// the input as a whole if no call is known and there is any, then the output if there is any, then
/// the room that is left of a known window.
pub proof fn law_the_map_shows_every_region(attr: ContextAttribution, sh: Shares)
    ensures
        ({
            let regions = regions_view(attr, sh);
            let known = attr.model_calls@.len() > 0;
            let call = attr.model_calls@.last();
            let schemas: int = if known && call.tool_count > 0 {
                1
            } else {
                0
            };
            let input: int = if known || attr.total_input_tokens > 0 {
                schemas + 1
            } else {
                0
            };
            let output: int = if attr.total_output_tokens > 0 {
                input + 1
            } else {
                input
            };
            let room = attr.window_max is Some && attr.total_input_tokens < attr.window_max->0;
            &&& regions.len() == if room {
                output + 1
            } else {
                output
            }
            &&& schemas == 1 ==> regions[0].tokens == 150 * call.tool_count && !regions[0].is_free
                && regions[0].children.len() == 0
            &&& known ==> regions[schemas].label == conversation(call, sh).label
                && regions[schemas].tokens == conversation(call, sh).tokens
                && regions[schemas].children == conversation_parts(call, sh)
                && !regions[schemas].is_free
            &&& !known && attr.total_input_tokens > 0 ==> regions[0].label == "Input tokens"@
                && regions[0].tokens == attr.total_input_tokens && !regions[0].is_free
                && regions[0].children.len() == 0
            &&& attr.total_output_tokens > 0 ==> regions[input].label == "Output tokens"@
                && regions[input].tokens == attr.total_output_tokens && !regions[input].is_free
                && regions[input].children.len() == 0
            &&& room ==> regions[output].label == "Free"@ && regions[output].is_free
                && regions[output].tokens + attr.total_input_tokens == attr.window_max->0
                && regions[output].children.len() == 0
        }),
{
    if attr.model_calls@.len() > 0 {
        assert(attr.model_calls@.last().tool_count * SCHEMA_TOKENS <= u64::MAX);
    }
}

/// The greatest region is one of them, or one token, and no region is greater.
pub proof fn law_the_greatest_region_sets_the_scale(regions: Seq<RegionView>)
    ensures
        greatest(regions) >= 1,
        forall|i: int| 0 <= i < regions.len() ==> (#[trigger] regions[i]).tokens <= greatest(regions),
        greatest(regions) == 1 || exists|i: int|
            0 <= i < regions.len() && (#[trigger] regions[i]).tokens == greatest(regions),
    decreases regions.len(),
{
    if regions.len() > 0 {
        let t = regions.drop_last();
        let n = regions.len() - 1;
        law_the_greatest_region_sets_the_scale(t);
        assert(regions[n] == regions.last());
        assert forall|i: int| 0 <= i < regions.len() implies (#[trigger] regions[i]).tokens
            <= greatest(regions) by {
            if i < n {
                assert(t[i] == regions[i]);
            }
        }
        if greatest(regions) != 1 && regions.last().tokens != greatest(regions) {
            let i = choose|i: int| 0 <= i < t.len() && (#[trigger] t[i]).tokens == greatest(t);
            assert(regions[i] == t[i]);
        }
    }
}

/// Columns make up the width: labels have at most thirty, none up to a width of forty, and bars
/// have what labels, amounts and percentages leave, but at least five.
pub proof fn law_columns_make_up_the_width(attr: ContextAttribution, regions: Seq<RegionView>, w: u16)
    ensures
        ({
            let l = layout_view(attr, regions, w);
            &&& w <= 40 ==> l.label_width == 0
            &&& 40 < w <= 70 ==> l.label_width == w - 40
            &&& w > 70 ==> l.label_width == 30
            &&& l.bar_budget >= 5
            &&& l.bar_budget > 5 ==> l.label_width + l.bar_budget + l.token_col_width + 14 == w
            &&& l.bar_budget == 5 ==> l.label_width + l.bar_budget + l.token_col_width + 14 >= w
            &&& l.token_col_width == 12
            &&& l.max_tokens == greatest(regions)
            &&& attr.window_max is Some ==> l.total_for_pct == attr.window_max->0
            &&& attr.window_max is None && attr.total_input_tokens >= 1 ==> l.total_for_pct
                == attr.total_input_tokens
            &&& attr.window_max is None && attr.total_input_tokens == 0 ==> l.total_for_pct == 1
        }),
{
}

/// Every region has a line with its label and its tokens, and below it, in order, one for each of
/// its parts.
pub proof fn law_lines_show_regions_and_their_parts(regions: Seq<RegionView>, k: int, j: int)
    requires
        0 <= k < regions.len(),
        0 <= j < regions[k].children.len(),
    ensures
        ({
            let lines = lines_of(regions, k + 1);
            let at = part_count(regions, k) as int;
            &&& lines.take(at) == lines_of(regions, k)
            &&& lines[at].label == regions[k].label
            &&& lines[at].tokens == regions[k].tokens
            &&& lines[at].is_free == regions[k].is_free
            &&& !lines[at].is_child
            &&& lines[at + 1 + j].label == regions[k].children[j].0
            &&& lines[at + 1 + j].tokens == regions[k].children[j].1
            &&& lines[at + 1 + j].is_child
            &&& !lines[at + 1 + j].is_free
        }),
{
    law_each_part_has_a_line(regions, k);
    assert(lines_of(regions, k + 1).take(part_count(regions, k) as int) =~= lines_of(regions, k));
}

/// A bar is as long as it was rounded to, but never gone where there are tokens, and tells used
/// room from free room.
pub proof fn law_bars_show_what_there_is(line: TreeLineView, rounded: usize)
    ensures
        rounded > 0 || line.tokens == 0 ==> bar_view(line, rounded).len() == rounded,
        rounded == 0 && line.tokens > 0 ==> bar_view(line, rounded).len() == 1,
        forall|i: int|
            0 <= i < bar_view(line, rounded).len() ==> #[trigger] bar_view(line, rounded)[i] == (
            if line.is_free {
                '░'
            } else {
                '█'
            }),
{
}

/// The bar of the header always has thirty columns, filled as far as the window is.
pub proof fn law_the_header_bar_is_filled_so_far(attr: ContextAttribution, rounded: usize)
    ensures
        attr.window_max is Some ==> window_of(attr) == attr.window_max->0,
        attr.window_max is None ==> window_of(attr) == 200_000,
        attr.window_max == Some(0u64) ==> header_filled(attr, rounded) == 0,
        attr.window_max != Some(0u64) && rounded <= 30 ==> header_filled(attr, rounded) == rounded,
        attr.window_max != Some(0u64) && rounded > 30 ==> header_filled(attr, rounded) == 30,
{
}

/// At most ten tools are listed, each with its place, its calls and its errors if there are any.
pub proof fn law_ten_tools_are_listed(n: nat, i: int, t: ToolAttribution, scaled: Seq<char>)
    requires
        0 <= i,
    ensures
        n <= 10 ==> listed(n) == n,
        n > 10 ==> listed(n) == 10,
        ({
            let head = "  "@ + text::decimal_view((i + 1) as nat) + ". "@ + text::padded(
                t.tool_name@,
                20,
            ) + " "@ + text::decimal_view(t.call_count as nat) + " calls, "@ + amount(
                t.total_result_bytes,
                scaled,
            ) + " bytes result"@;
            &&& t.error_count == 0 ==> tool_text(i, t, scaled) == head + "\n"@
            &&& t.error_count > 0 ==> tool_text(i, t, scaled) == head + " ("@ + text::decimal_view(
                t.error_count as nat,
            ) + " errors)"@ + "\n"@
        }),
{
    let head = "  "@ + text::decimal_view((i + 1) as nat) + ". "@ + text::padded(t.tool_name@, 20)
        + " "@ + text::decimal_view(t.call_count as nat) + " calls, "@ + amount(
        t.total_result_bytes,
        scaled,
    ) + " bytes result"@;
    if t.error_count == 0 {
        assert(tool_text(i, t, scaled) =~= head + "\n"@);
    } else {
        assert(tool_text(i, t, scaled) =~= head + " ("@ + text::decimal_view(t.error_count as nat)
            + " errors)"@ + "\n"@);
    }
}

/// Tokens for messages are known exactly if a call is, and together with those of its tool schemas
/// they are the prompt of the latest call, unless the schemas need more.
pub proof fn law_message_tokens_are_of_the_latest_call(attr: &ContextAttribution, r: Option<u64>)
    requires
        call_ensures(message_tokens, (attr,), r),
    ensures
        r is Some <==> attr.model_calls@.len() > 0,
        r matches Some(n) ==> {
            let call = attr.model_calls@.last();
            150 * call.tool_count <= snapshot(*attr) ==> n + 150 * call.tool_count == snapshot(
                *attr,
            )
        },
{
    if attr.model_calls@.len() > 0 {
        law_schemas_and_messages_make_up_the_prompt(*attr, attr.model_calls@.last());
    }
}

/// The header tells the window, shows in thirty columns how much of it is used, and tells that
/// again as an amount and in percent.
#[verifier::rlimit(60)]
#[verifier::spinoff_prover]
pub proof fn law_the_header_tells_how_full_the_window_is(
    attr: &ContextAttribution,
    f: &Figures,
    r: String,
)
    requires
        call_ensures(render_header, (attr, f), r),
    ensures
        ({
            let window = amount(window_of(*attr), f.window@);
            let used = amount(attr.total_input_tokens, f.total@);
            let head = "Context window: "@ + window + " tokens  ["@;
            let tail = "] "@ + used + " / "@ + window + " ("@ + f.percent@ + "%)"@;
            let filled = header_filled(*attr, f.filled);
            &&& r@.len() == head.len() + 30 + tail.len()
            &&& text::has_prefix(r@, head)
            &&& text::has_suffix(r@, tail)
            &&& forall|i: int|
                0 <= i < filled ==> #[trigger] r@[head.len() + i] == '█'
            &&& forall|i: int|
                filled <= i < 30 ==> #[trigger] r@[head.len() + i] == '░'
        }),
{
    let window = amount(window_of(*attr), f.window@);
    let used = amount(attr.total_input_tokens, f.total@);
    let head = "Context window: "@ + window + " tokens  ["@;
    let tail = "] "@ + used + " / "@ + window + " ("@ + f.percent@ + "%)"@;
    let filled = header_filled(*attr, f.filled);
    let bar = text::repeated('█', filled) + text::repeated('░', (HEADER_BAR - filled) as nat);
    assert(r@ =~= head + bar + tail);
    assert(r@.take(head.len() as int) =~= head);
    assert(r@.skip(r@.len() - tail.len()) =~= tail);
    assert forall|i: int| 0 <= i < filled implies #[trigger] r@[head.len() + i] == '█' by {
        assert(bar[i] == '█');
    }
    assert forall|i: int| filled <= i < 30 implies #[trigger] r@[head.len() + i] == '░' by {
        assert(bar[i] == '░');
    }
}

/// The cache is told of as far as it is known: reads against the input if there is any input, and
/// writes if there are any.
pub proof fn law_the_cache_is_told_of(attr: &ContextAttribution, f: &Figures, r: String)
    requires
        call_ensures(render_cache_info, (attr, f), r),
    ensures
        ({
            let reads = "Cache hit ratio: "@ + f.hit_ratio@ + "% (cache_read="@ + amount(
                attr.cache_read_tokens,
                f.cache_read@,
            ) + " / total_input="@ + amount(attr.total_input_tokens, f.total@) + ")\n"@;
            let writes = "Cache creation: "@ + amount(attr.cache_creation_tokens, f.cache_creation@)
                + " tokens\n"@;
            let input = attr.total_input_tokens > 0;
            let written = attr.cache_creation_tokens > 0;
            &&& input && written ==> r@ == reads + writes
            &&& input && !written ==> r@ == reads
            &&& !input && written ==> r@ == writes
            &&& !input && !written ==> r@.len() == 0
        }),
{
    let reads = "Cache hit ratio: "@ + f.hit_ratio@ + "% (cache_read="@ + amount(
        attr.cache_read_tokens,
        f.cache_read@,
    ) + " / total_input="@ + amount(attr.total_input_tokens, f.total@) + ")\n"@;
    let writes = "Cache creation: "@ + amount(attr.cache_creation_tokens, f.cache_creation@)
        + " tokens\n"@;
    assert(reads + Seq::<char>::empty() =~= reads);
    assert(Seq::<char>::empty() + writes =~= writes);
}

/// A line shows its prefix, its label cut or filled to its column, its bar, its tokens and its
/// percentage, in this order.
#[verifier::rlimit(60)]
#[verifier::spinoff_prover]
pub proof fn law_lines_show_label_bar_and_amount(
    line: &TreeLine,
    l: LineLayout,
    f: &LineFigures,
    r: String,
)
    requires
        call_ensures(render_region_line, (line, l, f), r),
    ensures
        ({
            let v = line.deep_view();
            let lw = if v.is_child {
                if l.label_width < 3 {
                    0
                } else {
                    l.label_width - 3
                }
            } else {
                l.label_width as int
            };
            let label = if v.label.len() > lw {
                v.label.take(lw)
            } else {
                v.label
            };
            &&& text::has_prefix(r@, v.prefix + " "@ + text::padded(label, lw as nat) + " "@)
            &&& text::has_suffix(
                r@,
                text::right_aligned(
                    amount(v.tokens, f.scaled@) + " tokens"@,
                    l.token_col_width as nat,
                ) + "  ("@ + text::right_aligned(f.percent@, 5) + "%)\n"@,
            )
        }),
{
    let v = line.deep_view();
    let lw = line_label_width(v, l);
    let head = v.prefix + " "@ + text::padded(cut(v.label, lw), lw as nat) + " "@;
    let tail = text::right_aligned(
        amount(v.tokens, f.scaled@) + " tokens"@,
        l.token_col_width as nat,
    ) + "  ("@ + text::right_aligned(f.percent@, 5) + "%)\n"@;
    let bar = text::padded(bar_view(v, f.bar), l.bar_budget as nat) + " "@;
    assert(r@ =~= head + bar + tail);
    assert(r@.take(head.len() as int) =~= head);
    assert(r@.skip(r@.len() - tail.len()) =~= tail);
}

} // verus!
