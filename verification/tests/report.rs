use cherenkov::cli_output::layout::{
    field_columns, height, margins, numeric, panels, too_wide, total_lines, Body, Panel, Style, WIDEST,
};
use cherenkov::cli_output::report::{under_title, Report};
use cherenkov::cli_output::rows::{plain_cell, rates_fields, timing_status};
use cherenkov::cli_output::stats::{expert_detail, experts_report, layer_detail, layers_report, summary_report};
use cherenkov::control::stats::{ratio, Expert, Layer, Observation, Page, Rates, Summary};
use cherenkov::qwen4_exp::gpu::activity::layers::LayerStats;
use cherenkov::qwen4_exp::gpu::activity::reads::ReadStats;
use cherenkov::qwen4_exp::gpu::activity::ExpertCounters;
use cherenkov::qwen4_exp::gpu::phases::GpuTiming;
use cherenkov::qwen4_exp::gpu::prefill::stats::PrefillStats;

fn own(text: &str) -> String {
    text.to_owned()
}

fn observation() -> Observation {
    Observation {
        observed_at_uptime_ns: 1_500_000_000,
        elapsed_ns: 1_000_000_000,
        gpu_timestamps_available: true,
        gpu_timing: GpuTiming::Available,
    }
}

fn rates() -> Rates {
    Rates {
        bytes_per_ns: ratio(1, 2),
        reads_per_ns: None,
        gpu_handoff_gap_fraction: ratio(1, 4),
        gpu_stage_fraction: ratio(3, 4),
    }
}

fn layer_page() -> Page<Layer> {
    Page {
        offset: 2,
        next_offset: Some(3),
        total: 9,
        data: vec![Layer {
            layer: 2,
            name: own("x|y"),
            experts: 8,
            counters: ExpertCounters { selected_rows: 5, ..ExpertCounters::default() },
            streaming: LayerStats::default(),
        }],
    }
}

fn expert_page() -> Page<Expert> {
    Page {
        offset: 0,
        next_offset: None,
        total: 1,
        data: vec![Expert { layer: 1, expert: 0, counters: ExpertCounters::default() }],
    }
}

fn small() -> Report {
    let mut r = Report::new();
    r.fields("Values", vec![(own("name"), own("12")), (own("other"), own("text"))]);
    r.table("List", vec![vec![own("A"), own("B")], vec![own("1"), own("x")], vec![own("22"), own("y")]]);
    r.note(own("A remark."));
    r
}

#[test]
fn reports_are_markdown() {
    let text = small().markdown();
    assert_eq!(
        text,
        "## Values\n\n| Metric | Value |\n|--------|-------|\n| name   | 12    |\n| other  | text  |\n\n## List\n\n| A  | B |\n|----|---|\n| 1  | x |\n| 22 | y |\n\nA remark."
    );
    assert_eq!(under_title("T", "x"), "## T\n\nx");
}

#[test]
fn a_report_grows_behind() {
    let mut r = small();
    let before = r.markdown();
    r.note(own("More."));
    assert!(r.markdown().starts_with(&before));
}

#[test]
fn outside_names_are_plain() {
    assert_eq!(plain_cell("a|b\\c`d*e<f>g\x1bh"), "a b c d e f g h");
    assert_eq!(plain_cell("model.layers.0"), "model.layers.0");
    assert_eq!(timing_status(&GpuTiming::Disabled { reason: own("a|b") }), "disabled: a b");
    assert_eq!(timing_status(&GpuTiming::Failed { error: own("x") }), "failed: x");
    assert_eq!(timing_status(&GpuTiming::Unsupported), "unsupported");
}

#[test]
fn rates_are_written_out() {
    let list = rates_fields(&rates());
    let value = |name: &str| list.iter().find(|(n, _)| n == name).unwrap().1.clone();
    assert_eq!(value("Read bytes/s"), "500000000.000");
    assert_eq!(value("Reads/s"), "n/a");
    assert_eq!(value("GPU handoff gaps (%)"), "25.000");
    assert_eq!(value("GPU stage coverage (%)"), "75.000");
}

#[test]
fn the_summary_has_all_sections() {
    let summary = Summary { streaming: LayerStats::default(), reads: ReadStats::default(), rates: rates() };
    let text = summary_report(&observation(), &summary, &PrefillStats::default()).markdown();
    for title in [
        "Observation",
        "Rates since engine load",
        "Prefill chunks",
        "Expert reads",
        "CPU phases",
        "GPU phases",
        "Prediction",
        "Expert precision",
    ] {
        assert!(text.contains(&format!("## {title}\n")), "{title}");
    }
    assert!(text.contains("1.500") && text.contains("available"));
}

#[test]
fn pages_name_the_next_one() {
    let text = layers_report(&observation(), &layer_page()).markdown();
    assert!(text.contains("x y") && text.contains("offset 2; total 9.") && text.contains("--offset 3."));
    let experts = experts_report(&observation(), &expert_page()).markdown();
    assert!(experts.contains("## Experts\n") && !experts.contains("Next page"));
}

#[test]
fn details_show_the_selected_row() {
    let text = layer_detail(&layer_page(), 0).markdown();
    assert!(text.starts_with("## Layer\n") && text.contains("## Expert reads\n"));
    assert!(expert_detail(&expert_page(), 0).markdown().starts_with("## Expert\n"));
}

#[test]
fn numbers_are_told_from_text() {
    for text in ["1", "-2.5", "+.5", "5.", "1e9", "1E-3", "inf", "-Infinity", "NaN", "n/a"] {
        assert!(numeric(text), "{text}");
        assert!(text == "n/a" || text.parse::<f64>().is_ok(), "{text}");
    }
    for text in ["", ".", "1e", "e5", "+", "1 ", "0x1", "1.2.3", "infinit", "true", "1e+"] {
        assert!(!numeric(text), "{text}");
        assert!(text.parse::<f64>().is_err(), "{text}");
    }
}

#[test]
fn field_columns_fit() {
    assert_eq!(field_columns(5, 7, 40), (5, 7));
    assert_eq!(field_columns(50, 50, 30), (8, 20));
    assert_eq!(field_columns(0, 0, 8), (1, 1));
    for width in 8..100u16 {
        let (a, b) = field_columns(70, 70, width);
        assert!(a + 2 + b <= usize::from(width));
    }
}

#[test]
fn heights_and_margins_are_bounded() {
    assert_eq!(height(65535), Ok(65535));
    assert!(height(65536).is_err());
    assert!(!too_wide(&vec![3, 3], 8));
    assert!(too_wide(&vec![3, 4], 8));
    for width in 1..200u16 {
        let (margin, content) = margins(width);
        assert!(usize::from(margin) + usize::from(content) <= usize::from(width));
    }
}

fn text_of(panel: &Panel) -> Option<(&str, Style)> {
    match &panel.body {
        Body::Text(text, style) => Some((text.as_str(), *style)),
        Body::Table(..) => None,
    }
}

#[test]
fn panels_lay_the_report_out() {
    let list = panels(&small(), 40).unwrap();
    assert!(list.iter().filter_map(text_of).any(|(text, style)| text == "Values" && style == Style::Heading));
    assert!(list.iter().filter_map(text_of).any(|(text, _)| text == "A remark."));
    let tables: Vec<_> = list
        .iter()
        .filter_map(|p| match &p.body {
            Body::Table(rows, widths) => Some((rows, widths, p.height)),
            Body::Text(..) => None,
        })
        .collect();
    assert_eq!(tables.len(), 2);
    let (fields, widths, lines) = (&tables[0].0, tables[0].1, tables[0].2);
    assert_eq!(widths, &vec![5, 4]);
    assert_eq!((fields.len(), lines), (2, 2));
    assert_eq!(fields[0].cells[0].lines, vec!["name"]);
    assert_eq!(fields[0].cells[0].style, Style::Label);
    assert!(fields[0].cells[1].right && !fields[1].cells[1].right);
    let (rows, widths) = (&tables[1].0, tables[1].1);
    assert_eq!(widths, &vec![2, 1]);
    assert_eq!(rows[0].style, Style::Header);
    assert!(rows.iter().any(|r| r.style == Style::Rule && r.cells[0].lines == vec!["──"]));
    let whole: u16 = list.iter().map(|p| p.height).sum();
    assert_eq!(total_lines(&list), Some(whole));
}

#[test]
fn long_values_are_wrapped() {
    let mut r = Report::new();
    r.fields("F", vec![(own("a"), own("one two three four five six"))]);
    let list = panels(&r, 12).unwrap();
    let table = list
        .iter()
        .find_map(|p| match &p.body {
            Body::Table(rows, widths) => Some((rows, widths)),
            Body::Text(..) => None,
        })
        .unwrap();
    assert_eq!(table.1, &vec![1, 8]);
    assert_eq!(table.0[0].cells[1].lines, vec!["one two", "three", "four", "five six"]);
    assert_eq!(table.0[0].height, 4);
}

#[test]
fn narrow_terminals_get_lines() {
    let list = panels(&small(), 6).unwrap();
    assert!(list.iter().filter_map(text_of).any(|(text, _)| text == "name\n12\nother\ntext"));
}

#[test]
fn wide_characters_take_two_columns() {
    let mut r = Report::new();
    r.fields("F", vec![(own("日本"), own("é"))]);
    let list = panels(&r, 40).unwrap();
    assert!(list.iter().any(|p| matches!(&p.body, Body::Table(_, widths) if widths == &vec![4, 1])));
}

#[test]
fn the_widest_panel_is_drawn() {
    let list = panels(&small(), WIDEST).unwrap();
    assert_eq!(list.len(), panels(&small(), 40).unwrap().len());
}
