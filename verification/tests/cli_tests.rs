use ki2::cli::{
    cli_command, diagnostic_line_text, erc_exit_code, erc_output_path, erc_report_file_name, erc_text_report,
    erc_units_label, erc_worker_stack_size, filter_reported_diagnostics, group_diagnostics_by_path,
    has_netlist_annotation_errors, netlist_extension, netlist_output_path, parse_erc_args, parse_netlist_args,
    parse_validate_args, raised_stack_limit, render_erc_text_report, selected_variant, AnnotationEntry, CliCommand,
    ErcArgs, ErcOutputFormat, ErcReportUnits, ErcSeverityMask, NetlistArgs, NetlistOutputFormat, ValidateArgs,
    CONSTRAINED_HOST_HEADROOM_BYTES, CONSTRAINED_HOST_THRESHOLD_BYTES,
};
use ki2::diagnostic::{Diagnostic, Severity};

fn args(items: &[&str]) -> Vec<String> {
    items.iter().map(|s| s.to_string()).collect()
}

fn warning(code: &'static str, message: &str) -> Diagnostic {
    let mut d = Diagnostic::error(code, message.to_string());
    d.severity = Severity::Warning;
    d
}

#[test]
fn commands_are_selected_by_name() {
    assert_eq!(cli_command("validate"), Some(CliCommand::Validate));
    assert_eq!(cli_command("erc"), Some(CliCommand::Erc));
    assert_eq!(cli_command("netlist"), Some(CliCommand::Netlist));
    assert_eq!(cli_command("ERC"), None);
    assert_eq!(cli_command(""), None);
}

#[test]
fn validate_args_take_one_path_and_tree_flag() {
    match parse_validate_args(&args(&["--tree", "top.kicad_sch"])) {
        ValidateArgs::Run { path, tree } => {
            assert_eq!(path, "top.kicad_sch");
            assert!(tree);
        }
        _ => panic!("expected a run"),
    }
    match parse_validate_args(&args(&["top.kicad_sch"])) {
        ValidateArgs::Run { path, tree } => {
            assert_eq!(path, "top.kicad_sch");
            assert!(!tree);
        }
        _ => panic!("expected a run"),
    }
    assert!(matches!(parse_validate_args(&args(&[])), ValidateArgs::Usage));
    assert!(matches!(parse_validate_args(&args(&["--tree"])), ValidateArgs::Usage));
    match parse_validate_args(&args(&["a.kicad_sch", "b.kicad_sch"])) {
        ValidateArgs::Unexpected(arg) => assert_eq!(arg, "b.kicad_sch"),
        _ => panic!("expected an unexpected argument"),
    }
}

#[test]
fn erc_args_defaults() {
    match parse_erc_args(&args(&["top.kicad_sch"])) {
        ErcArgs::Run(config) => {
            assert_eq!(config.path, "top.kicad_sch");
            assert_eq!(config.output, None);
            assert_eq!(config.format, ErcOutputFormat::Text);
            assert_eq!(config.units, ErcReportUnits::Millimeters);
            assert_eq!(config.severity_mask, ErcSeverityMask::default_reported());
            assert!(!config.exit_code_violations);
        }
        other => panic!("unexpected {other:?}"),
    }
}

#[test]
fn erc_args_read_every_option() {
    let parsed = parse_erc_args(&args(&[
        "--output",
        "out.json",
        "--format",
        "json",
        "top.kicad_sch",
        "--units",
        "mils",
        "--severity-error",
        "--exit-code-violations",
    ]));
    match parsed {
        ErcArgs::Run(config) => {
            assert_eq!(config.path, "top.kicad_sch");
            assert_eq!(config.output.as_deref(), Some("out.json"));
            assert_eq!(config.format, ErcOutputFormat::Json);
            assert_eq!(config.units, ErcReportUnits::Mils);
            assert_eq!(config.severity_mask, ErcSeverityMask { errors: true, warnings: false, exclusions: false });
            assert!(config.exit_code_violations);
        }
        other => panic!("unexpected {other:?}"),
    }
    match parse_erc_args(&args(&["x", "--format", "report", "--units", "in", "--severity-all"])) {
        ErcArgs::Run(config) => {
            assert_eq!(config.format, ErcOutputFormat::Text);
            assert_eq!(config.units, ErcReportUnits::Inches);
            assert_eq!(config.severity_mask, ErcSeverityMask { errors: true, warnings: true, exclusions: true });
        }
        other => panic!("unexpected {other:?}"),
    }
}

#[test]
fn erc_args_misuse() {
    assert!(matches!(parse_erc_args(&args(&[])), ErcArgs::Usage));
    assert!(matches!(parse_erc_args(&args(&["x", "--output"])), ErcArgs::Usage));
    assert!(matches!(parse_erc_args(&args(&["x", "--format"])), ErcArgs::Usage));
    assert!(matches!(parse_erc_args(&args(&["x", "--format", "html"])), ErcArgs::InvalidFormat));
    assert!(matches!(parse_erc_args(&args(&["x", "--units", "cm"])), ErcArgs::InvalidUnits));
    match parse_erc_args(&args(&["x", "y"])) {
        ErcArgs::Unexpected(arg) => assert_eq!(arg, "y"),
        other => panic!("unexpected {other:?}"),
    }
}

#[test]
fn netlist_args_default_to_kicad_format() {
    match parse_netlist_args(&args(&["top.kicad_sch"])) {
        NetlistArgs::Run(config) => {
            assert_eq!(config.path, "top.kicad_sch");
            assert_eq!(config.format, NetlistOutputFormat::Kicad);
            assert_eq!(config.output, None);
            assert_eq!(config.variant, None);
        }
        other => panic!("unexpected {other:?}"),
    }
    match parse_netlist_args(&args(&["--format", "kicadxml", "--variant", "Lite", "top.kicad_sch", "--output", "n.xml"])) {
        NetlistArgs::Run(config) => {
            assert_eq!(config.format, NetlistOutputFormat::Xml);
            assert_eq!(config.variant.as_deref(), Some("Lite"));
            assert_eq!(config.output.as_deref(), Some("n.xml"));
        }
        other => panic!("unexpected {other:?}"),
    }
    assert!(matches!(parse_netlist_args(&args(&["x", "--format", "spice"])), NetlistArgs::InvalidFormat));
    assert!(matches!(parse_netlist_args(&args(&["x", "--variant"])), NetlistArgs::Usage));
    assert!(matches!(parse_netlist_args(&args(&["x", "y"])), NetlistArgs::Unexpected(_)));
}

#[test]
fn variant_selection_trims_and_skips_all() {
    assert_eq!(selected_variant(Some("  Lite ")), Some("Lite".to_string()));
    assert_eq!(selected_variant(Some("ALL")), None);
    assert_eq!(selected_variant(Some(" all ")), None);
    assert_eq!(selected_variant(Some("   ")), None);
    assert_eq!(selected_variant(None), None);
}

#[test]
fn severity_mask_from_flags() {
    assert_eq!(ErcSeverityMask::from_flags(false, false, false, false), ErcSeverityMask::default_reported());
    assert_eq!(
        ErcSeverityMask::from_flags(true, false, true, false),
        ErcSeverityMask { errors: true, warnings: true, exclusions: true }
    );
    assert_eq!(
        ErcSeverityMask::from_flags(false, false, true, false),
        ErcSeverityMask { errors: false, warnings: true, exclusions: false }
    );
    let mask = ErcSeverityMask::from_flags(false, false, false, true);
    assert!(!mask.includes(Severity::Error));
    assert!(!mask.includes(Severity::Warning));
    assert_eq!(mask.included_labels(), vec!["exclusion"]);
    assert_eq!(ErcSeverityMask::default_reported().included_labels(), vec!["error", "warning"]);
}

#[test]
fn filtering_keeps_included_severities_in_order() {
    let ds = vec![
        Diagnostic::error("a", "first".to_string()),
        warning("b", "second"),
        Diagnostic::error("c", "third".to_string()),
    ];
    let errors_only = ErcSeverityMask { errors: true, warnings: false, exclusions: false };
    let kept = filter_reported_diagnostics(ds.clone(), errors_only);
    assert_eq!(kept.len(), 2);
    assert_eq!(kept[0].code, "a");
    assert_eq!(kept[1].code, "c");
    assert_eq!(filter_reported_diagnostics(ds, ErcSeverityMask::default_reported()).len(), 3);
}

#[test]
fn exit_code_follows_violations_flag() {
    assert_eq!(erc_exit_code(true, 2), 1);
    assert_eq!(erc_exit_code(true, 0), 0);
    assert_eq!(erc_exit_code(false, 5), 0);
}

#[test]
fn diagnostics_group_by_sorted_path() {
    let ds = vec![
        Diagnostic::error("a", "m1".to_string()).with_path("b.kicad_sch".to_string()),
        Diagnostic::error("b", "m2".to_string()),
        Diagnostic::error("c", "m3".to_string()).with_path("a.kicad_sch".to_string()),
        Diagnostic::error("d", "m4".to_string()).with_path("b.kicad_sch".to_string()),
    ];
    let groups = group_diagnostics_by_path(&ds);
    assert_eq!(
        groups,
        vec![
            ("<unknown>".to_string(), vec![1]),
            ("a.kicad_sch".to_string(), vec![2]),
            ("b.kicad_sch".to_string(), vec![0, 3]),
        ]
    );
    assert!(group_diagnostics_by_path(&Vec::new()).is_empty());
}

#[test]
fn diagnostic_lines_name_place_message_and_code() {
    let placed = Diagnostic::error("pin_not_connected", "Pin not connected".to_string())
        .with_path("top.kicad_sch".to_string())
        .with_position(12, 4);
    assert_eq!(diagnostic_line_text(&placed), "top.kicad_sch:12:4: Pin not connected [pin_not_connected]");
    let unplaced = warning("x", "msg");
    assert_eq!(diagnostic_line_text(&unplaced), "<unknown>:0:0: msg [x]");
}

#[test]
fn text_report_lists_sheets_and_totals() {
    let ds = vec![
        Diagnostic::error("e1", "first".to_string()).with_path("sub.kicad_sch".to_string()).with_position(3, 7),
        warning("w1", "second").with_path("main.kicad_sch".to_string()),
    ];
    let report = erc_text_report("main.kicad_sch", &ds, ErcReportUnits::Millimeters, ErcSeverityMask::default_reported());
    let expected = "ERC report (main.kicad_sch, Encoding UTF8)\n\
Report includes: error, warning\n\
Coordinate units: mm\n\
\n***** Sheet main.kicad_sch\n\
main.kicad_sch:0:0: second [w1]\n\
\n***** Sheet sub.kicad_sch\n\
sub.kicad_sch:3:7: first [e1]\n\
\n ** ERC messages: 2  Errors 1  Warnings 1\n\
found 2 violations\n";
    assert_eq!(report, expected);
}

#[test]
fn empty_text_report() {
    let report = erc_text_report("x.kicad_sch", &Vec::new(), ErcReportUnits::Inches, ErcSeverityMask::from_flags(true, false, false, false));
    assert_eq!(
        report,
        "ERC report (x.kicad_sch, Encoding UTF8)\nReport includes: error, warning, exclusion\nCoordinate units: in\n\n ** ERC messages: 0  Errors 0  Warnings 0\nfound 0 violations\n"
    );
}

#[test]
fn rendered_report_is_named_by_file_name() {
    let ds = vec![Diagnostic::error("e", "m".to_string())];
    let report = render_erc_text_report("/tmp/project/top.kicad_sch", &ds, ErcReportUnits::Mils, ErcSeverityMask::default_reported());
    assert!(report.starts_with("ERC report (top.kicad_sch, Encoding UTF8)\n"));
    assert!(report.contains("Coordinate units: mils\n"));
    assert!(report.contains("<unknown>:0:0: m [e]\n"));
}

#[test]
fn units_labels() {
    assert_eq!(erc_units_label(ErcReportUnits::Millimeters), "mm");
    assert_eq!(erc_units_label(ErcReportUnits::Inches), "in");
    assert_eq!(erc_units_label(ErcReportUnits::Mils), "mils");
}

#[test]
fn report_file_names() {
    assert_eq!(erc_report_file_name(Some("top"), ErcOutputFormat::Text), "top-erc.rpt");
    assert_eq!(erc_report_file_name(Some("top"), ErcOutputFormat::Json), "top-erc.json");
    assert_eq!(erc_report_file_name(None, ErcOutputFormat::Text), "erc-erc.rpt");
}

#[test]
fn output_paths() {
    assert_eq!(erc_output_path("dir/top.kicad_sch", None, ErcOutputFormat::Text), "dir/top-erc.rpt");
    assert_eq!(erc_output_path("dir/top.kicad_sch", None, ErcOutputFormat::Json), "dir/top-erc.json");
    assert_eq!(erc_output_path("dir/top.kicad_sch", Some("o.rpt"), ErcOutputFormat::Json), "o.rpt");
    assert_eq!(netlist_extension(NetlistOutputFormat::Xml), "xml");
    assert_eq!(netlist_extension(NetlistOutputFormat::Kicad), "net");
    assert_eq!(netlist_output_path("dir/top.kicad_sch", None, NetlistOutputFormat::Kicad), "dir/top.net");
    assert_eq!(netlist_output_path("dir/top.kicad_sch", None, NetlistOutputFormat::Xml), "dir/top.xml");
    assert_eq!(netlist_output_path("dir/top.kicad_sch", Some("x.net"), NetlistOutputFormat::Xml), "x.net");
}

#[test]
fn worker_stack_fits_constrained_hosts() {
    let target = 64 * 1024 * 1024;
    assert_eq!(erc_worker_stack_size(target, None), target);
    assert_eq!(erc_worker_stack_size(target, Some(CONSTRAINED_HOST_THRESHOLD_BYTES + 1)), target);
    assert_eq!(erc_worker_stack_size(target, Some(8 * 1024 * 1024)), 8 * 1024 * 1024 - CONSTRAINED_HOST_HEADROOM_BYTES);
    assert_eq!(erc_worker_stack_size(target, Some(CONSTRAINED_HOST_THRESHOLD_BYTES)), target);
    assert_eq!(erc_worker_stack_size(target, Some(1024)), 0);
    assert_eq!(erc_worker_stack_size(1024, Some(8 * 1024 * 1024)), 1024);
}

#[test]
fn stack_limit_is_raised_to_the_hard_limit() {
    assert_eq!(raised_stack_limit(8, 16, u64::MAX), Some(16));
    assert_eq!(raised_stack_limit(16, 16, u64::MAX), None);
    assert_eq!(raised_stack_limit(16, u64::MAX, u64::MAX), Some(u64::MAX));
    assert_eq!(raised_stack_limit(32, 16, u64::MAX), None);
}

fn entry(reference: &str, unit: i32, value: &str, unit_count: usize) -> AnnotationEntry {
    AnnotationEntry { reference: reference.to_string(), unit, value: value.to_string(), unit_count }
}

#[test]
fn annotation_errors_are_found() {
    assert!(!has_netlist_annotation_errors(&vec![entry("R1", 1, "10k", 1), entry("R2", 1, "10k", 1)]));
    assert!(has_netlist_annotation_errors(&vec![entry("R?", 1, "10k", 1)]));
    assert!(has_netlist_annotation_errors(&vec![entry("U1", 3, "opamp", 2)]));
    assert!(has_netlist_annotation_errors(&vec![entry("R1", 1, "10k", 1), entry("r1", 1, "10k", 1)]));
    assert!(has_netlist_annotation_errors(&vec![entry("U1", 1, "opamp", 2), entry("U1", 2, "opamp", 4)]));
    assert!(has_netlist_annotation_errors(&vec![entry("U1", 1, "opamp", 2), entry("U1", 2, "comparator", 2)]));
    assert!(!has_netlist_annotation_errors(&vec![entry("U1", 1, "opamp", 2), entry("U1", 2, "opamp", 2)]));
    assert!(!has_netlist_annotation_errors(&Vec::new()));
}
