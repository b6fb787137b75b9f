use ki2::diagnostic::Severity;
use ki2::erc::labels::{check_same_local_global_label, check_similar_labels, check_single_global_labels, ScreenLabels, ShownLabel};
use ki2::model::LabelKind;

fn label(kind: LabelKind, text: &str) -> ShownLabel {
    ShownLabel::Label { kind, text: text.to_string() }
}

fn power(value: Option<&str>) -> ShownLabel {
    ShownLabel::PowerSymbol { value: value.map(str::to_string) }
}

fn screen(path: &str, items: Vec<ShownLabel>) -> ScreenLabels {
    ScreenLabels { path: path.to_string(), items }
}

#[test]
fn single_global_labels_are_reported_in_text_order() {
    let screens = vec![
        screen("/p/top.kicad_sch", vec![label(LabelKind::Global, "SDA"), label(LabelKind::Global, "CLK")]),
        screen("/p/sub.kicad_sch", vec![label(LabelKind::Global, "SDA"), label(LabelKind::Local, "RST"), label(LabelKind::Global, "BUSY")]),
    ];
    let ds = check_single_global_labels(&screens);
    let got: Vec<(String, Option<String>)> = ds.iter().map(|d| (d.message.clone(), d.path.clone())).collect();
    assert_eq!(
        got,
        vec![
            ("Global label 'BUSY' appears only once".to_string(), Some("/p/sub.kicad_sch".to_string())),
            ("Global label 'CLK' appears only once".to_string(), Some("/p/top.kicad_sch".to_string())),
        ]
    );
    assert!(ds.iter().all(|d| d.severity == Severity::Warning && d.code == "erc-single-global-label"));
}

#[test]
fn same_local_and_global_name_is_an_error() {
    let screens = vec![
        screen("/p/top.kicad_sch", vec![label(LabelKind::Local, "NET"), label(LabelKind::Global, "B")]),
        screen("/p/sub.kicad_sch", vec![label(LabelKind::Global, "NET"), label(LabelKind::Global, "NET"), label(LabelKind::Hierarchical, "B")]),
    ];
    let ds = check_same_local_global_label(&screens);
    assert_eq!(ds.len(), 1);
    assert_eq!(ds[0].message, "Local and global labels have same name");
    assert_eq!(ds[0].path, Some("/p/sub.kicad_sch".to_string()));
    assert_eq!(ds[0].severity, Severity::Error);
    assert_eq!(ds[0].code, "erc-same-local-global-label");
}

#[test]
fn names_differing_only_by_case_are_reported_against_each_earlier_one() {
    let screens = vec![
        screen("/p/a.kicad_sch", vec![label(LabelKind::Global, "Vcc"), label(LabelKind::Local, "clk"), power(Some("VCC"))]),
        screen(
            "/p/b.kicad_sch",
            vec![label(LabelKind::Local, "CLK"), label(LabelKind::Directive, "vcc"), power(None), power(Some("vcc")), label(LabelKind::Global, "Vcc")],
        ),
    ];
    let ds = check_similar_labels(&screens);
    let got: Vec<(&str, String, Option<String>)> = ds.iter().map(|d| (d.code, d.message.clone(), d.path.clone())).collect();
    let a = Some("/p/a.kicad_sch".to_string());
    let b = Some("/p/b.kicad_sch".to_string());
    assert_eq!(
        got,
        vec![
            ("erc-similar-label-and-power", "Similar label and power names differ only by case: 'VCC' and 'Vcc'".to_string(), a.clone()),
            ("erc-similar-label-and-power", "Similar label and power names differ only by case: 'vcc' and 'Vcc'".to_string(), b.clone()),
            ("erc-similar-power", "Similar power names differ only by case: 'vcc' and 'VCC'".to_string(), b.clone()),
            ("erc-similar-label-and-power", "Similar label and power names differ only by case: 'Vcc' and 'VCC'".to_string(), b.clone()),
            ("erc-similar-label-and-power", "Similar label and power names differ only by case: 'Vcc' and 'vcc'".to_string(), b),
        ]
    );
    assert!(ds.iter().all(|d| d.severity == Severity::Warning));
}
