use mu_core::agent::Usage;
use mu_core::context_attribution::{ContextAttribution, ModelCallAttribution, ToolAttribution};
use mu_core::context_renderer::{
    format_tokens, layout, message_tokens, regions, render, render_region_line, token_divisor,
    tree_lines, window, Figures, LineFigures, LineLayout, Shares, TreeLine,
};

fn scaled(n: u64) -> String {
    format!("{:.1}", n as f64 / token_divisor(n) as f64)
}

fn shown(n: u64) -> String {
    format_tokens(n, &scaled(n))
}

fn ratio(a: u64, b: u64) -> f64 {
    if b > 0 {
        a as f64 / b as f64
    } else {
        0.0
    }
}

fn shares(attr: &ContextAttribution) -> Shares {
    let tokens = message_tokens(attr).unwrap_or(0) as f64;
    let (user, assistant, results) = match attr.model_calls.last() {
        Some(call) => {
            let all = call.message_count as u64;
            (
                ratio(call.user_message_count as u64, all),
                ratio(call.assistant_message_count as u64, all),
                ratio(call.tool_result_count as u64, all),
            )
        }
        None => (0.0, 0.0, 0.0),
    };
    Shares {
        user: (tokens * user).round() as u64,
        assistant: (tokens * assistant).round() as u64,
        tool_results: (tokens * results).round() as u64,
    }
}

fn figures(attr: &ContextAttribution, width: u16) -> Figures {
    let shares = shares(attr);
    let parts = regions(attr, shares);
    let columns = layout(attr, &parts, width);
    let max = window(attr);
    let total = attr.total_input_tokens;
    Figures {
        window: scaled(max),
        total: scaled(total),
        filled: (ratio(total, max) * 30.0).round() as usize,
        percent: format!("{:.1}", ratio(total, max) * 100.0),
        shares,
        lines: tree_lines(&parts)
            .iter()
            .map(|line| LineFigures {
                bar: (ratio(line.tokens, columns.max_tokens) * columns.bar_budget as f64).round()
                    as usize,
                scaled: scaled(line.tokens),
                percent: format!("{:.1}", ratio(line.tokens, columns.total_for_pct) * 100.0),
            })
            .collect(),
        hit_ratio: format!("{:.0}", ratio(attr.cache_read_tokens, total) * 100.0),
        cache_read: scaled(attr.cache_read_tokens),
        cache_creation: scaled(attr.cache_creation_tokens),
        tool_bytes: attr
            .tool_attribution
            .iter()
            .map(|t| scaled(t.total_result_bytes))
            .collect(),
    }
}

fn render_map(attr: &ContextAttribution, width: u16) -> String {
    render(attr, width, &figures(attr, width))
}

fn sample_usage(input: u64, output: u64, cache_read: u64, cache_creation: u64) -> Usage {
    Usage {
        input_tokens: input,
        output_tokens: output,
        cache_read_input_tokens: if cache_read > 0 {
            Some(cache_read)
        } else {
            None
        },
        cache_creation_input_tokens: if cache_creation > 0 {
            Some(cache_creation)
        } else {
            None
        },
        cache_creation_5m_input_tokens: None,
        cache_creation_1h_input_tokens: None,
        reasoning_tokens: None,
    }
}

fn make_attribution() -> ContextAttribution {
    ContextAttribution {
        window_max: Some(200_000),
        total_input_tokens: 87_400,
        total_output_tokens: 4_800,
        cache_read_tokens: 18_400,
        cache_creation_tokens: 2_100,
        model_calls: vec![
            ModelCallAttribution {
                model_call_id: 1,
                message_count: 3,
                user_message_count: 1,
                assistant_message_count: 1,
                tool_result_count: 1,
                tool_count: 8,
                token_count_estimate: None,
                provider_kind: "anthropic_api".into(),
                model: "opus-4-7".into(),
                renderer: Some("anthropic".into()),
                cache_strategy: Some("sliding_window".into()),
                span_count: Some(15),
                cache_boundary_count: Some(2),
                usage: Some(sample_usage(42_000, 2_400, 8_000, 1_000)),
            },
            ModelCallAttribution {
                model_call_id: 2,
                message_count: 7,
                user_message_count: 2,
                assistant_message_count: 2,
                tool_result_count: 3,
                tool_count: 8,
                token_count_estimate: None,
                provider_kind: "anthropic_api".into(),
                model: "opus-4-7".into(),
                renderer: Some("anthropic".into()),
                cache_strategy: Some("sliding_window".into()),
                span_count: Some(22),
                cache_boundary_count: Some(3),
                usage: Some(sample_usage(87_400, 4_800, 18_400, 2_100)),
            },
        ],
        tool_attribution: vec![
            ToolAttribution {
                tool_name: "read".into(),
                call_count: 5,
                total_result_bytes: 58_400,
                error_count: 0,
            },
            ToolAttribution {
                tool_name: "grep".into(),
                call_count: 3,
                total_result_bytes: 4_200,
                error_count: 0,
            },
            ToolAttribution {
                tool_name: "edit".into(),
                call_count: 2,
                total_result_bytes: 800,
                error_count: 1,
            },
        ],
        user_message_count: 2,
        assistant_message_count: 2,
        tool_result_count: 3,
        provider_model: Some(("anthropic_api".into(), "opus-4-7".into())),
    }
}

#[test]
fn render_80_col_contains_key_elements() {
    let attr = make_attribution();
    let output = render_map(&attr, 80);
    assert!(output.contains("Context window:"));
    assert!(output.contains("200.0K"));
    assert!(output.contains("87.4K"));
    assert!(output.contains("Conversation"));
    assert!(output.contains("User messages"));
    assert!(output.contains("Tool results"));
    assert!(output.contains("Tool schemas"));
    assert!(output.contains("Cache hit ratio:"));
    assert!(output.contains("cache_read=18.4K"));
    assert!(output.contains("Top tool consumers:"));
    assert!(output.contains("read"));
    assert!(output.contains("grep"));
    assert!(output.contains("edit"));
    assert!(output.contains("1 errors"));
    assert!(output.contains("┌─"));
    assert!(output.contains("├─"));
    assert!(output.contains("└─"));
}

#[test]
fn render_120_col_contains_key_elements() {
    let attr = make_attribution();
    let output = render_map(&attr, 120);

    assert!(output.contains("Context window:"));
    assert!(output.contains("Conversation"));
    assert!(output.contains("Cache hit ratio:"));
    assert!(output.contains("Top tool consumers:"));
}

#[test]
fn render_80_vs_120_same_data() {
    let attr = make_attribution();
    let out80 = render_map(&attr, 80);
    let out120 = render_map(&attr, 120);
    let lines_80 = out80.lines().count();
    let lines_120 = out120.lines().count();
    assert_eq!(lines_80, lines_120);
    for line in out80.lines().skip(1) {
        let display_width = line.chars().count();
        assert!(
            display_width <= 85,
            "80-col line too wide ({} chars): {}",
            display_width,
            line,
        );
    }
}

#[test]
fn render_empty_attribution() {
    let attr = ContextAttribution {
        window_max: None,
        total_input_tokens: 0,
        total_output_tokens: 0,
        cache_read_tokens: 0,
        cache_creation_tokens: 0,
        model_calls: Vec::new(),
        tool_attribution: Vec::new(),
        user_message_count: 0,
        assistant_message_count: 0,
        tool_result_count: 0,
        provider_model: None,
    };
    let output = render_map(&attr, 80);
    assert!(output.contains("Context window:"));
    assert!(!output.contains("Conversation"));
    assert!(!output.contains("Cache hit ratio:"));
    assert!(!output.contains("Top tool consumers:"));
}

#[test]
fn render_no_window_max() {
    let attr = ContextAttribution {
        window_max: None,
        total_input_tokens: 5_000,
        total_output_tokens: 500,
        cache_read_tokens: 0,
        cache_creation_tokens: 0,
        model_calls: vec![ModelCallAttribution {
            model_call_id: 1,
            message_count: 2,
            user_message_count: 1,
            assistant_message_count: 1,
            tool_result_count: 0,
            tool_count: 0,
            token_count_estimate: None,
            provider_kind: "faux".into(),
            model: "test".into(),
            renderer: None,
            cache_strategy: None,
            span_count: None,
            cache_boundary_count: None,
            usage: Some(sample_usage(5_000, 500, 0, 0)),
        }],
        tool_attribution: Vec::new(),
        user_message_count: 1,
        assistant_message_count: 1,
        tool_result_count: 0,
        provider_model: None,
    };
    let output = render_map(&attr, 80);
    assert!(output.contains("200.0K"));
    assert!(output.contains("5000"));
}

#[test]
fn render_deterministic() {
    let attr = make_attribution();
    let out1 = render_map(&attr, 80);
    let out2 = render_map(&attr, 80);
    assert_eq!(out1, out2);
}

#[test]
fn format_tokens_ranges() {
    assert_eq!(shown(0), "0");
    assert_eq!(shown(500), "500");
    assert_eq!(shown(9_999), "9999");
    assert_eq!(shown(10_000), "10.0K");
    assert_eq!(shown(87_400), "87.4K");
    assert_eq!(shown(200_000), "200.0K");
    assert_eq!(shown(1_000_000), "1.0M");
    assert_eq!(shown(2_500_000), "2.5M");
}

#[test]
fn snapshot_80_col() {
    let attr = make_attribution();
    let output = render_map(&attr, 80);
    let line_count = output.lines().count();
    assert!(line_count >= 10, "expected >=10 lines, got {line_count}");
    let lines: Vec<&str> = output.lines().collect();
    assert!(lines[0].contains("Context window:"));
    let tree_start = lines.iter().position(|l| l.contains("┌─")).unwrap();
    let tree_end = lines.iter().position(|l| l.contains("└─")).unwrap();
    assert!(tree_start < tree_end);
}

#[test]
fn snapshot_120_col() {
    let attr = make_attribution();
    let output = render_map(&attr, 120);
    let line_count = output.lines().count();
    assert!(line_count >= 10, "expected >=10 lines, got {line_count}");
    let lines: Vec<&str> = output.lines().collect();
    assert!(lines[0].contains("Context window:"));
}

#[test]
fn regions_name_and_count_their_parts() {
    let attr = make_attribution();
    let sh = shares(&attr);
    assert_eq!(message_tokens(&attr), Some(86_200));
    assert_eq!(sh.user, 24_629);
    assert_eq!(sh.assistant, 24_629);
    assert_eq!(sh.tool_results, 36_943);
    let parts = regions(&attr, sh);
    let labels: Vec<&str> = parts.iter().map(|r| r.label.as_str()).collect();
    assert_eq!(
        labels,
        vec![
            "Tool schemas (8)",
            "Conversation (7 msgs)",
            "Output tokens",
            "Free"
        ]
    );
    assert_eq!(parts[0].tokens, 1_200);
    assert_eq!(parts[1].tokens, 86_201);
    assert_eq!(parts[3].tokens, 112_600);
    assert!(parts[3].is_free);
    assert_eq!(parts[1].children[1].0, "Tool results (3)");
}

#[test]
fn tree_lines_are_prefixed_by_their_place() {
    let attr = make_attribution();
    let lines = tree_lines(&regions(&attr, shares(&attr)));
    let prefixes: Vec<&str> = lines.iter().map(|l| l.prefix).collect();
    assert_eq!(
        prefixes,
        vec!["┌─", "├─", "│  ├─", "│  ├─", "│  └─", "├─", "└─"]
    );
}

#[test]
fn lines_are_laid_out_in_columns() {
    let line = TreeLine {
        prefix: "┌─",
        label: "Free".to_string(),
        tokens: 12_300,
        is_free: true,
        is_child: false,
    };
    let columns = LineLayout {
        label_width: 6,
        bar_budget: 4,
        token_col_width: 12,
        max_tokens: 100,
        total_for_pct: 100,
    };
    let figs = LineFigures {
        bar: 0,
        scaled: "12.3".to_string(),
        percent: "6.1".to_string(),
    };
    assert_eq!(
        render_region_line(&line, columns, &figs),
        "┌─ Free   ░    12.3K tokens  (  6.1%)\n"
    );
    let child = TreeLine {
        is_child: true,
        is_free: false,
        ..line
    };
    assert_eq!(
        render_region_line(&child, columns, &figs),
        "┌─ Fre █    12.3K tokens  (  6.1%)\n"
    );
}

#[test]
fn columns_follow_the_width() {
    let attr = make_attribution();
    let parts = regions(&attr, shares(&attr));
    let wide = layout(&attr, &parts, 80);
    assert_eq!(wide.label_width, 30);
    assert_eq!(wide.bar_budget, 24);
    assert_eq!(wide.max_tokens, 112_600);
    assert_eq!(wide.total_for_pct, 200_000);
    let narrow = layout(&attr, &parts, 30);
    assert_eq!(narrow.label_width, 0);
    assert_eq!(narrow.bar_budget, 5);
}

#[test]
fn the_number_of_lines_does_not_depend_on_the_width() {
    let attr = make_attribution();
    let at_80 = render_map(&attr, 80);
    for width in [0, 20, 41, 60, 120, 400, u16::MAX] {
        let map = render_map(&attr, width);
        assert_eq!(map.lines().count(), at_80.lines().count());
        assert!(map.starts_with("Context window: "));
        assert_eq!(map.lines().next(), at_80.lines().next());
    }
}
