//! The command-line front end: reading the arguments of the validate, ERC and netlist
//! commands, choosing and rendering what an ERC report holds, the annotation check that
//! precedes a netlist export, and the stack-size arithmetic of the ERC worker.

use crate::diagnostic::{Diagnostic, Severity};
use crate::grouping::{group_by_key, is_key_grouping, law_grouping_unique, lemma_positions_bounded, positions_of};
use crate::text::{decimal, opt_view, push_decimal, push_str, seq_to_string, str_eq, trim};
use vstd::prelude::*;

verus! {

/// The format of an ERC report.
#[derive(Debug, Clone, Copy, PartialEq, Eq, Structural)]
pub enum ErcOutputFormat {
    Text,
    Json,
}

/// The coordinate units an ERC report names.
#[derive(Debug, Clone, Copy, PartialEq, Eq, Structural)]
pub enum ErcReportUnits {
    Millimeters,
    Inches,
    Mils,
}

/// The format of an exported netlist.
#[derive(Debug, Clone, Copy, PartialEq, Eq, Structural)]
pub enum NetlistOutputFormat {
    Xml,
    Kicad,
}

/// The severities an ERC report includes.
#[derive(Debug, Clone, Copy, PartialEq, Eq, Structural)]
pub struct ErcSeverityMask {
    pub errors: bool,
    pub warnings: bool,
    pub exclusions: bool,
}

/// The mask that the severity flags select: every severity with `--severity-all`, else
/// the flagged ones where any is flagged, else errors and warnings.
pub open spec fn flags_mask(all: bool, error: bool, warning: bool, exclusions: bool) -> ErcSeverityMask {
    if all {
        ErcSeverityMask { errors: true, warnings: true, exclusions: true }
    } else if error || warning || exclusions {
        ErcSeverityMask { errors: error, warnings: warning, exclusions }
    } else {
        ErcSeverityMask { errors: true, warnings: true, exclusions: false }
    }
}

/// Whether a mask includes a severity.
pub open spec fn mask_includes(mask: ErcSeverityMask, severity: Severity) -> bool {
    match severity {
        Severity::Error => mask.errors,
        Severity::Warning => mask.warnings,
    }
}

/// The labels of the included severities, in the order error, warning, exclusion.
pub open spec fn mask_labels(mask: ErcSeverityMask) -> Seq<Seq<char>> {
    let a: Seq<Seq<char>> = if mask.errors {
        seq!["error"@]
    } else {
        Seq::empty()
    };
    let b = if mask.warnings {
        a.push("warning"@)
    } else {
        a
    };
    if mask.exclusions {
        b.push("exclusion"@)
    } else {
        b
    }
}

impl ErcSeverityMask {
    /// Errors and warnings, without exclusions.
    pub fn default_reported() -> (r: Self)
        ensures
            r == (ErcSeverityMask { errors: true, warnings: true, exclusions: false }),
    {
        ErcSeverityMask { errors: true, warnings: true, exclusions: false }
    }

    /// The mask that the command's severity flags select.
    pub fn from_flags(severity_all: bool, severity_error: bool, severity_warning: bool, severity_exclusions: bool) -> (r: Self)
        ensures
            r == flags_mask(severity_all, severity_error, severity_warning, severity_exclusions),
    {
        if severity_all {
            return ErcSeverityMask { errors: true, warnings: true, exclusions: true };
        }
        if severity_error || severity_warning || severity_exclusions {
            return ErcSeverityMask {
                errors: severity_error,
                warnings: severity_warning,
                exclusions: severity_exclusions,
            };
        }
        Self::default_reported()
    }

    /// Whether the report includes diagnostics of the severity.
    pub fn includes(self, severity: Severity) -> (r: bool)
        ensures
            r == mask_includes(self, severity),
    {
        match severity {
            Severity::Error => self.errors,
            Severity::Warning => self.warnings,
        }
    }

    /// The labels of the included severities, for the report's header.
    pub fn included_labels(self) -> (r: Vec<&'static str>)
        ensures
            crate::loader::name_views(r@) == mask_labels(self),
    {
        let mut labels: Vec<&'static str> = Vec::new();
        if self.errors {
            labels.push("error");
        }
        if self.warnings {
            labels.push("warning");
        }
        if self.exclusions {
            labels.push("exclusion");
        }
        assert(crate::loader::name_views(labels@) =~= mask_labels(self));
        labels
    }
}

/// `--severity-all` selects every severity, whatever else is flagged.
pub proof fn law_severity_all_selects_everything(error: bool, warning: bool, exclusions: bool)
    ensures
        mask_includes(flags_mask(true, error, warning, exclusions), Severity::Error),
        mask_includes(flags_mask(true, error, warning, exclusions), Severity::Warning),
        flags_mask(true, error, warning, exclusions).exclusions,
{
}

/// Without `--severity-all`, flagged severities are exactly the ones reported; with no
/// flag at all, errors and warnings are.
pub proof fn law_severity_flags_select(error: bool, warning: bool, exclusions: bool)
    ensures
        (error || warning || exclusions) ==> flags_mask(false, error, warning, exclusions) == (ErcSeverityMask {
            errors: error,
            warnings: warning,
            exclusions,
        }),
        !(error || warning || exclusions) ==> flags_mask(false, error, warning, exclusions) == (ErcSeverityMask {
            errors: true,
            warnings: true,
            exclusions: false,
        }),
{
}

/// The report header lists a severity exactly when the report includes it.
pub proof fn law_labels_match_mask(mask: ErcSeverityMask)
    ensures
        mask_labels(mask).contains("error"@) <==> mask_includes(mask, Severity::Error),
        mask_labels(mask).contains("warning"@) <==> mask_includes(mask, Severity::Warning),
        mask_labels(mask).contains("exclusion"@) <==> mask.exclusions,
{
    reveal_strlit("error");
    reveal_strlit("warning");
    reveal_strlit("exclusion");
    let e = "error"@;
    let w = "warning"@;
    let x = "exclusion"@;
    assert(e.len() == 5 && w.len() == 7 && x.len() == 9);
    let a: Seq<Seq<char>> = if mask.errors {
        seq![e]
    } else {
        Seq::empty()
    };
    let b = if mask.warnings {
        a.push(w)
    } else {
        a
    };
    let l = mask_labels(mask);
    assert(l == if mask.exclusions { b.push(x) } else { b });
    assert forall|i: int| 0 <= i < l.len() implies (l[i].len() == 5 ==> mask.errors) && (l[i].len() == 7
        ==> mask.warnings) && (l[i].len() == 9 ==> mask.exclusions) by {
        if mask.exclusions && i == l.len() - 1 {
            assert(l[i] == x);
        } else if i < b.len() {
            assert(l[i] == b[i]);
            if mask.warnings && i == b.len() - 1 {
                assert(b[i] == w);
            } else {
                assert(b[i] == a[i]);
                assert(a[i] == e);
            }
        }
    }
    if mask.errors {
        assert(l[0] == e);
    }
    if mask.warnings {
        assert(b[b.len() - 1] == w);
        assert(l[b.len() - 1] == w);
    }
    if mask.exclusions {
        assert(l[l.len() - 1] == x);
    }
}

/// The name of the report's coordinate units.
pub open spec fn units_label(units: ErcReportUnits) -> Seq<char> {
    match units {
        ErcReportUnits::Millimeters => "mm"@,
        ErcReportUnits::Inches => "in"@,
        ErcReportUnits::Mils => "mils"@,
    }
}

/// The name of the coordinate units, as the report writes it.
pub fn erc_units_label(units: ErcReportUnits) -> (r: &'static str)
    ensures
        r@ == units_label(units),
{
    match units {
        ErcReportUnits::Millimeters => "mm",
        ErcReportUnits::Inches => "in",
        ErcReportUnits::Mils => "mils",
    }
}

/// The diagnostics of the included severities, in order.
pub open spec fn masked(ds: Seq<Diagnostic>, mask: ErcSeverityMask) -> Seq<Diagnostic>
    decreases ds.len(),
{
    if ds.len() == 0 {
        ds
    } else if mask_includes(mask, ds.last().severity) {
        masked(ds.drop_last(), mask).push(ds.last())
    } else {
        masked(ds.drop_last(), mask)
    }
}

/// Keeps the diagnostics whose severity the report includes.
pub fn filter_reported_diagnostics(diagnostics: Vec<Diagnostic>, mask: ErcSeverityMask) -> (r: Vec<Diagnostic>)
    ensures
        r@ == masked(diagnostics@, mask),
{
    let ghost ds = diagnostics@;
    let n = diagnostics.len();
    let mut rest = diagnostics;
    let mut out: Vec<Diagnostic> = Vec::new();
    let mut i: usize = 0;
    assert(ds.subrange(0, ds.len() as int) =~= ds);
    while i < n
        invariant
            0 <= i <= n,
            n == ds.len(),
            rest@ == ds.subrange(i as int, ds.len() as int),
            out@ == masked(ds.take(i as int), mask),
        decreases n - i,
    {
        let d = rest.remove(0);
        assert(d == ds[i as int]);
        assert(rest@ =~= ds.subrange(i + 1, ds.len() as int));
        assert(ds.take(i + 1).drop_last() =~= ds.take(i as int));
        if mask.includes(d.severity) {
            out.push(d);
        }
        i = i + 1;
    }
    assert(ds.take(n as int) =~= ds);
    out
}

/// The exit status of the ERC command once the report is written: 1 where violations
/// count as failure and some were reported, else 0.
pub fn erc_exit_code(exit_code_violations: bool, reported: usize) -> (r: i32)
    ensures
        r == (if exit_code_violations && reported > 0 {
            1i32
        } else {
            0i32
        }),
{
    if exit_code_violations && reported > 0 {
        1
    } else {
        0
    }
}

/// The subcommands of the command line.
#[derive(Debug, Clone, Copy, PartialEq, Eq, Structural)]
pub enum CliCommand {
    Validate,
    Erc,
    Netlist,
}

/// The subcommand a name selects.
pub open spec fn command_named(name: Seq<char>) -> Option<CliCommand> {
    if name == "validate"@ {
        Some(CliCommand::Validate)
    } else if name == "erc"@ {
        Some(CliCommand::Erc)
    } else if name == "netlist"@ {
        Some(CliCommand::Netlist)
    } else {
        None
    }
}

/// The subcommand that the first argument names; `None` for an unknown one.
pub fn cli_command(name: &str) -> (r: Option<CliCommand>)
    ensures
        r == command_named(name@),
{
    if str_eq(name, "validate") {
        Some(CliCommand::Validate)
    } else if str_eq(name, "erc") {
        Some(CliCommand::Erc)
    } else if str_eq(name, "netlist") {
        Some(CliCommand::Netlist)
    } else {
        None
    }
}

/// What the validate command's arguments say: the path and whether the whole hierarchy is
/// loaded, or a misuse.
pub enum ValidateParseEnd {
    Done(Seq<char>, bool),
    Usage,
    Unexpected(Seq<char>),
}

/// Reads the validate arguments from position `i` on: `--tree`, and one path.
pub open spec fn validate_parse_from(args: Seq<Seq<char>>, i: int, path: Option<Seq<char>>, tree: bool) -> ValidateParseEnd
    decreases args.len() - i,
{
    if i < 0 || i >= args.len() {
        match path {
            Some(p) => ValidateParseEnd::Done(p, tree),
            None => ValidateParseEnd::Usage,
        }
    } else if args[i] == "--tree"@ {
        validate_parse_from(args, i + 1, path, true)
    } else if path is None {
        validate_parse_from(args, i + 1, Some(args[i]), tree)
    } else {
        ValidateParseEnd::Unexpected(args[i])
    }
}

/// The validate command as its arguments give it.
pub enum ValidateArgs {
    Run { path: String, tree: bool },
    Usage,
    Unexpected(String),
}

/// Reads the validate command's arguments.
pub fn parse_validate_args(args: &Vec<String>) -> (r: ValidateArgs)
    ensures
        match validate_parse_from(args.deep_view(), 0, None, false) {
            ValidateParseEnd::Done(p, t) => r matches ValidateArgs::Run { path, tree } && path@ == p && tree == t,
            ValidateParseEnd::Usage => r is Usage,
            ValidateParseEnd::Unexpected(a) => r matches ValidateArgs::Unexpected(x) && x@ == a,
        },
{
    let ghost av = args.deep_view();
    let mut path: Option<String> = None;
    let mut tree = false;
    let mut i: usize = 0;
    while i < args.len()
        invariant
            0 <= i <= args.len(),
            av == args.deep_view(),
            validate_parse_from(av, i as int, opt_view(path), tree) == validate_parse_from(av, 0, None, false),
        decreases args.len() - i,
    {
        let a = args[i].as_str();
        assert(a@ == av[i as int]);
        if str_eq(a, "--tree") {
            tree = true;
        } else if path.is_none() {
            path = Some(args[i].clone());
        } else {
            return ValidateArgs::Unexpected(args[i].clone());
        }
        i = i + 1;
    }
    match path {
        Some(p) => ValidateArgs::Run { path: p, tree },
        None => ValidateArgs::Usage,
    }
}

/// What the ERC command's arguments were read into so far.
pub struct ErcParse {
    pub path: Option<Seq<char>>,
    pub output: Option<Seq<char>>,
    pub format: ErcOutputFormat,
    pub units: ErcReportUnits,
    pub all: bool,
    pub error: bool,
    pub warning: bool,
    pub exclusions: bool,
    pub exit_code: bool,
}

/// How reading the ERC command's arguments ends: a complete reading, or a misuse.
pub enum ErcParseEnd {
    Done(ErcParse),
    Usage,
    Unexpected(Seq<char>),
    InvalidFormat,
    InvalidUnits,
}

/// Nothing read yet: text report in millimetres, no flags.
pub open spec fn erc_parse_start() -> ErcParse {
    ErcParse {
        path: None,
        output: None,
        format: ErcOutputFormat::Text,
        units: ErcReportUnits::Millimeters,
        all: false,
        error: false,
        warning: false,
        exclusions: false,
        exit_code: false,
    }
}

/// Reads the ERC arguments from position `i` on: `--output <path>`, `--format
/// <report|text|json>`, `--units <mm|in|mils>`, the severity flags, `--exit-code-violations`
/// and one path; an option without its value, a second path or no path is a misuse.
pub open spec fn erc_parse_from(args: Seq<Seq<char>>, i: int, st: ErcParse) -> ErcParseEnd
    decreases args.len() - i,
{
    if i < 0 || i >= args.len() {
        match st.path {
            Some(_) => ErcParseEnd::Done(st),
            None => ErcParseEnd::Usage,
        }
    } else {
        let a = args[i];
        if a == "--output"@ {
            if i + 1 < args.len() {
                erc_parse_from(args, i + 2, ErcParse { output: Some(args[i + 1]), ..st })
            } else {
                ErcParseEnd::Usage
            }
        } else if a == "--format"@ {
            if i + 1 < args.len() {
                let v = args[i + 1];
                if v == "report"@ || v == "text"@ {
                    erc_parse_from(args, i + 2, ErcParse { format: ErcOutputFormat::Text, ..st })
                } else if v == "json"@ {
                    erc_parse_from(args, i + 2, ErcParse { format: ErcOutputFormat::Json, ..st })
                } else {
                    ErcParseEnd::InvalidFormat
                }
            } else {
                ErcParseEnd::Usage
            }
        } else if a == "--units"@ {
            if i + 1 < args.len() {
                let v = args[i + 1];
                if v == "mm"@ {
                    erc_parse_from(args, i + 2, ErcParse { units: ErcReportUnits::Millimeters, ..st })
                } else if v == "in"@ {
                    erc_parse_from(args, i + 2, ErcParse { units: ErcReportUnits::Inches, ..st })
                } else if v == "mils"@ {
                    erc_parse_from(args, i + 2, ErcParse { units: ErcReportUnits::Mils, ..st })
                } else {
                    ErcParseEnd::InvalidUnits
                }
            } else {
                ErcParseEnd::Usage
            }
        } else if a == "--severity-all"@ {
            erc_parse_from(args, i + 1, ErcParse { all: true, ..st })
        } else if a == "--severity-error"@ {
            erc_parse_from(args, i + 1, ErcParse { error: true, ..st })
        } else if a == "--severity-warning"@ {
            erc_parse_from(args, i + 1, ErcParse { warning: true, ..st })
        } else if a == "--severity-exclusions"@ {
            erc_parse_from(args, i + 1, ErcParse { exclusions: true, ..st })
        } else if a == "--exit-code-violations"@ {
            erc_parse_from(args, i + 1, ErcParse { exit_code: true, ..st })
        } else if st.path is None {
            erc_parse_from(args, i + 1, ErcParse { path: Some(a), ..st })
        } else {
            ErcParseEnd::Unexpected(a)
        }
    }
}

/// What the ERC command is to do.
#[derive(Debug)]
pub struct ErcCommandConfig {
    pub path: String,
    pub output: Option<String>,
    pub format: ErcOutputFormat,
    pub units: ErcReportUnits,
    pub severity_mask: ErcSeverityMask,
    pub exit_code_violations: bool,
}

/// The ERC command as its arguments give it, or how they misuse it.
#[derive(Debug)]
pub enum ErcArgs {
    Run(ErcCommandConfig),
    Usage,
    Unexpected(String),
    InvalidFormat,
    InvalidUnits,
}

/// `c` is the command that a complete reading describes.
pub open spec fn erc_config_of(c: ErcCommandConfig, st: ErcParse) -> bool {
    &&& Some(c.path@) == st.path
    &&& opt_view(c.output) == st.output
    &&& c.format == st.format
    &&& c.units == st.units
    &&& c.severity_mask == flags_mask(st.all, st.error, st.warning, st.exclusions)
    &&& c.exit_code_violations == st.exit_code
}

/// Reads the ERC command's arguments.
pub fn parse_erc_args(args: &Vec<String>) -> (r: ErcArgs)
    ensures
        match erc_parse_from(args.deep_view(), 0, erc_parse_start()) {
            ErcParseEnd::Done(st) => r matches ErcArgs::Run(c) && erc_config_of(c, st),
            ErcParseEnd::Usage => r is Usage,
            ErcParseEnd::Unexpected(a) => r matches ErcArgs::Unexpected(x) && x@ == a,
            ErcParseEnd::InvalidFormat => r is InvalidFormat,
            ErcParseEnd::InvalidUnits => r is InvalidUnits,
        },
{
    let ghost av = args.deep_view();
    let mut path: Option<String> = None;
    let mut output: Option<String> = None;
    let mut format = ErcOutputFormat::Text;
    let mut units = ErcReportUnits::Millimeters;
    let mut all = false;
    let mut error = false;
    let mut warning = false;
    let mut exclusions = false;
    let mut exit_code = false;
    let mut i: usize = 0;
    while i < args.len()
        invariant
            0 <= i <= args.len(),
            av == args.deep_view(),
            erc_parse_from(
                av,
                i as int,
                ErcParse {
                    path: opt_view(path),
                    output: opt_view(output),
                    format,
                    units,
                    all,
                    error,
                    warning,
                    exclusions,
                    exit_code,
                },
            ) == erc_parse_from(av, 0, erc_parse_start()),
        decreases args.len() - i,
    {
        let a = args[i].as_str();
        assert(a@ == av[i as int]);
        if str_eq(a, "--output") {
            if i + 1 < args.len() {
                output = Some(args[i + 1].clone());
                i = i + 2;
            } else {
                return ErcArgs::Usage;
            }
        } else if str_eq(a, "--format") {
            if i + 1 < args.len() {
                let v = args[i + 1].as_str();
                assert(v@ == av[i + 1]);
                if str_eq(v, "report") || str_eq(v, "text") {
                    format = ErcOutputFormat::Text;
                } else if str_eq(v, "json") {
                    format = ErcOutputFormat::Json;
                } else {
                    return ErcArgs::InvalidFormat;
                }
                i = i + 2;
            } else {
                return ErcArgs::Usage;
            }
        } else if str_eq(a, "--units") {
            if i + 1 < args.len() {
                let v = args[i + 1].as_str();
                assert(v@ == av[i + 1]);
                if str_eq(v, "mm") {
                    units = ErcReportUnits::Millimeters;
                } else if str_eq(v, "in") {
                    units = ErcReportUnits::Inches;
                } else if str_eq(v, "mils") {
                    units = ErcReportUnits::Mils;
                } else {
                    return ErcArgs::InvalidUnits;
                }
                i = i + 2;
            } else {
                return ErcArgs::Usage;
            }
        } else if str_eq(a, "--severity-all") {
            all = true;
            i = i + 1;
        } else if str_eq(a, "--severity-error") {
            error = true;
            i = i + 1;
        } else if str_eq(a, "--severity-warning") {
            warning = true;
            i = i + 1;
        } else if str_eq(a, "--severity-exclusions") {
            exclusions = true;
            i = i + 1;
        } else if str_eq(a, "--exit-code-violations") {
            exit_code = true;
            i = i + 1;
        } else if path.is_none() {
            path = Some(args[i].clone());
            i = i + 1;
        } else {
            return ErcArgs::Unexpected(args[i].clone());
        }
    }
    match path {
        Some(p) => ErcArgs::Run(
            ErcCommandConfig {
                path: p,
                output,
                format,
                units,
                severity_mask: ErcSeverityMask::from_flags(all, error, warning, exclusions),
                exit_code_violations: exit_code,
            },
        ),
        None => ErcArgs::Usage,
    }
}

/// What the netlist command's arguments were read into so far.
pub struct NetlistParse {
    pub path: Option<Seq<char>>,
    pub output: Option<Seq<char>>,
    pub format: NetlistOutputFormat,
    pub variant: Option<Seq<char>>,
}

/// How reading the netlist command's arguments ends.
pub enum NetlistParseEnd {
    Done(NetlistParse),
    Usage,
    Unexpected(Seq<char>),
    InvalidFormat,
}

/// Reads the netlist arguments from position `i` on: `--output <path>`, `--variant
/// <name>`, `--format <xml|kicadxml|kicad|kicadsexpr>` and one path.
pub open spec fn netlist_parse_from(args: Seq<Seq<char>>, i: int, st: NetlistParse) -> NetlistParseEnd
    decreases args.len() - i,
{
    if i < 0 || i >= args.len() {
        match st.path {
            Some(_) => NetlistParseEnd::Done(st),
            None => NetlistParseEnd::Usage,
        }
    } else {
        let a = args[i];
        if a == "--output"@ {
            if i + 1 < args.len() {
                netlist_parse_from(args, i + 2, NetlistParse { output: Some(args[i + 1]), ..st })
            } else {
                NetlistParseEnd::Usage
            }
        } else if a == "--variant"@ {
            if i + 1 < args.len() {
                netlist_parse_from(args, i + 2, NetlistParse { variant: Some(args[i + 1]), ..st })
            } else {
                NetlistParseEnd::Usage
            }
        } else if a == "--format"@ {
            if i + 1 < args.len() {
                let v = args[i + 1];
                if v == "xml"@ || v == "kicadxml"@ {
                    netlist_parse_from(args, i + 2, NetlistParse { format: NetlistOutputFormat::Xml, ..st })
                } else if v == "kicad"@ || v == "kicadsexpr"@ {
                    netlist_parse_from(args, i + 2, NetlistParse { format: NetlistOutputFormat::Kicad, ..st })
                } else {
                    NetlistParseEnd::InvalidFormat
                }
            } else {
                NetlistParseEnd::Usage
            }
        } else if st.path is None {
            netlist_parse_from(args, i + 1, NetlistParse { path: Some(a), ..st })
        } else {
            NetlistParseEnd::Unexpected(a)
        }
    }
}

/// What the netlist command is to do.
#[derive(Debug)]
pub struct NetlistCommandConfig {
    pub path: String,
    pub output: Option<String>,
    pub format: NetlistOutputFormat,
    pub variant: Option<String>,
}

/// The netlist command as its arguments give it, or how they misuse it.
#[derive(Debug)]
pub enum NetlistArgs {
    Run(NetlistCommandConfig),
    Usage,
    Unexpected(String),
    InvalidFormat,
}

/// Reads the netlist command's arguments; the format is the KiCad one unless chosen.
pub fn parse_netlist_args(args: &Vec<String>) -> (r: NetlistArgs)
    ensures
        match netlist_parse_from(
            args.deep_view(),
            0,
            NetlistParse { path: None, output: None, format: NetlistOutputFormat::Kicad, variant: None },
        ) {
            NetlistParseEnd::Done(st) => r matches NetlistArgs::Run(c) && Some(c.path@) == st.path && opt_view(
                c.output,
            ) == st.output && c.format == st.format && opt_view(c.variant) == st.variant,
            NetlistParseEnd::Usage => r is Usage,
            NetlistParseEnd::Unexpected(a) => r matches NetlistArgs::Unexpected(x) && x@ == a,
            NetlistParseEnd::InvalidFormat => r is InvalidFormat,
        },
{
    let ghost av = args.deep_view();
    let ghost start = NetlistParse { path: None, output: None, format: NetlistOutputFormat::Kicad, variant: None };
    let mut path: Option<String> = None;
    let mut output: Option<String> = None;
    let mut format = NetlistOutputFormat::Kicad;
    let mut variant: Option<String> = None;
    let mut i: usize = 0;
    while i < args.len()
        invariant
            0 <= i <= args.len(),
            av == args.deep_view(),
            netlist_parse_from(
                av,
                i as int,
                NetlistParse { path: opt_view(path), output: opt_view(output), format, variant: opt_view(variant) },
            ) == netlist_parse_from(av, 0, start),
            start == (NetlistParse { path: None, output: None, format: NetlistOutputFormat::Kicad, variant: None }),
        decreases args.len() - i,
    {
        let a = args[i].as_str();
        assert(a@ == av[i as int]);
        if str_eq(a, "--output") {
            if i + 1 < args.len() {
                output = Some(args[i + 1].clone());
                i = i + 2;
            } else {
                return NetlistArgs::Usage;
            }
        } else if str_eq(a, "--variant") {
            if i + 1 < args.len() {
                variant = Some(args[i + 1].clone());
                i = i + 2;
            } else {
                return NetlistArgs::Usage;
            }
        } else if str_eq(a, "--format") {
            if i + 1 < args.len() {
                let v = args[i + 1].as_str();
                assert(v@ == av[i + 1]);
                if str_eq(v, "xml") || str_eq(v, "kicadxml") {
                    format = NetlistOutputFormat::Xml;
                } else if str_eq(v, "kicad") || str_eq(v, "kicadsexpr") {
                    format = NetlistOutputFormat::Kicad;
                } else {
                    return NetlistArgs::InvalidFormat;
                }
                i = i + 2;
            } else {
                return NetlistArgs::Usage;
            }
        } else if path.is_none() {
            path = Some(args[i].clone());
            i = i + 1;
        } else {
            return NetlistArgs::Unexpected(args[i].clone());
        }
    }
    match path {
        Some(p) => NetlistArgs::Run(NetlistCommandConfig { path: p, output, format, variant }),
        None => NetlistArgs::Usage,
    }
}

/// The variant a netlist export selects: the trimmed name, unless it is empty or `all`
/// in any ASCII case.
pub open spec fn variant_choice(variant: Option<Seq<char>>) -> Option<Seq<char>> {
    match variant {
        Some(v) => if trim(v).len() > 0 && !crate::model::sim_params::eq_ignore_ascii_case(trim(v), "all"@) {
            Some(trim(v))
        } else {
            None
        },
        None => None,
    }
}

/// The variant that the `--variant` option selects for the export.
pub fn selected_variant(variant: Option<&str>) -> (r: Option<String>)
    ensures
        opt_view(r) == variant_choice(
            match variant {
                Some(v) => Some(v@),
                None => None,
            },
        ),
{
    match variant {
        Some(v) => {
            let t = crate::text::trim_string(v);
            let tv = crate::text::str_to_chars(t.as_str());
            if !t.as_str().is_empty() && !crate::model::sim_params::eq_ignore_case_str(&tv, "all") {
                Some(t)
            } else {
                None
            }
        },
        None => None,
    }
}

/// The sheet a diagnostic is listed under in a report: its path, or `<unknown>`.
pub open spec fn report_key(d: Diagnostic) -> Seq<char> {
    match d.path {
        Some(p) => p@,
        None => "<unknown>"@,
    }
}

/// The sheet each diagnostic is listed under, in order.
pub open spec fn report_keys(ds: Seq<Diagnostic>) -> Seq<Seq<char>> {
    ds.map_values(|d: Diagnostic| report_key(d))
}

/// `g` lists the diagnostics by sheet: one group per sheet that some diagnostic names,
/// sheets in increasing text order, each group the positions of its diagnostics in order.
pub open spec fn is_report_grouping(ds: Seq<Diagnostic>, g: Seq<(Seq<char>, Seq<usize>)>) -> bool {
    is_key_grouping(report_keys(ds), g)
}

fn report_key_exec(d: &Diagnostic) -> (r: String)
    ensures
        r@ == report_key(*d),
{
    match &d.path {
        Some(p) => p.clone(),
        None => "<unknown>".to_owned(),
    }
}

/// Groups the diagnostics by the sheet they are listed under, sheets in increasing text
/// order; each group holds the positions of its diagnostics in order.
pub fn group_diagnostics_by_path(diagnostics: &Vec<Diagnostic>) -> (r: Vec<(String, Vec<usize>)>)
    ensures
        is_report_grouping(diagnostics@, r.deep_view()),
{
    let ghost ds = diagnostics@;
    let mut keys: Vec<String> = Vec::new();
    let mut i: usize = 0;
    while i < diagnostics.len()
        invariant
            0 <= i <= diagnostics.len(),
            ds == diagnostics@,
            keys.deep_view() == report_keys(ds.take(i as int)),
        decreases diagnostics.len() - i,
    {
        let ghost before = keys.deep_view();
        keys.push(report_key_exec(&diagnostics[i]));
        assert(keys.deep_view() =~= before.push(report_key(ds[i as int])));
        assert(report_keys(ds.take(i + 1)) =~= report_keys(ds.take(i as int)).push(report_key(ds[i as int])));
        i = i + 1;
    }
    assert(ds.take(ds.len() as int) =~= ds);
    group_by_key(&keys)
}

/// A line or column for display: the number, or 0 where unknown.
pub open spec fn or_zero(n: Option<usize>) -> nat {
    match n {
        Some(v) => v as nat,
        None => 0,
    }
}

/// How a diagnostic is written in a report and on the console:
/// `path:line:column: message [code]`, with 0 for an unknown line or column.
pub open spec fn diagnostic_line(d: Diagnostic) -> Seq<char> {
    report_key(d) + ":"@ + decimal(or_zero(d.line)) + ":"@ + decimal(or_zero(d.column)) + ": "@ + d.message@
        + " ["@ + d.code@ + "]"@
}

/// The number of diagnostics of a severity.
pub open spec fn count_severity(ds: Seq<Diagnostic>, s: Severity) -> nat
    decreases ds.len(),
{
    if ds.len() == 0 {
        0
    } else {
        count_severity(ds.drop_last(), s) + if ds.last().severity == s {
            1nat
        } else {
            0nat
        }
    }
}

/// The report lines of the first `n` diagnostics of a group.
pub open spec fn group_lines(ds: Seq<Diagnostic>, idx: Seq<usize>, n: int) -> Seq<char>
    decreases n,
{
    if n <= 0 {
        Seq::empty()
    } else {
        group_lines(ds, idx, n - 1) + diagnostic_line(ds[idx[n - 1] as int]) + "\n"@
    }
}

/// The report sections of the first `n` groups: a sheet heading, then its lines.
pub open spec fn group_sections(ds: Seq<Diagnostic>, g: Seq<(Seq<char>, Seq<usize>)>, n: int) -> Seq<char>
    decreases n,
{
    if n <= 0 {
        Seq::empty()
    } else {
        group_sections(ds, g, n - 1) + "\n***** Sheet "@ + g[n - 1].0 + "\n"@ + group_lines(ds, g[n - 1].1, g[n - 1].1.len() as int)
    }
}

/// The text ERC report: a header naming the source, the included severities and the
/// units; the diagnostics by sheet; and the totals.
pub open spec fn erc_report_text(name: Seq<char>, ds: Seq<Diagnostic>, units: ErcReportUnits, mask: ErcSeverityMask, g: Seq<(Seq<char>, Seq<usize>)>) -> Seq<char> {
    "ERC report ("@ + name + ", Encoding UTF8)\n"@ + "Report includes: "@ + crate::text::join_with(mask_labels(mask), ", "@) + "\n"@
        + "Coordinate units: "@ + units_label(units) + "\n"@ + group_sections(ds, g, g.len() as int)
        + "\n ** ERC messages: "@ + decimal(ds.len()) + "  Errors "@ + decimal(count_severity(ds, Severity::Error))
        + "  Warnings "@ + decimal(count_severity(ds, Severity::Warning)) + "\n"@ + "found "@ + decimal(ds.len())
        + " violations\n"@
}

fn push_diagnostic_line(out: &mut Vec<char>, d: &Diagnostic)
    ensures
        final(out)@ == old(out)@ + diagnostic_line(*d),
{
    let key = report_key_exec(d);
    push_str(out, key.as_str());
    push_str(out, ":");
    let line: usize = match d.line {
        Some(l) => l,
        None => 0,
    };
    let column: usize = match d.column {
        Some(c) => c,
        None => 0,
    };
    push_decimal(out, line as u64);
    push_str(out, ":");
    push_decimal(out, column as u64);
    push_str(out, ": ");
    push_str(out, d.message.as_str());
    push_str(out, " [");
    push_str(out, d.code);
    push_str(out, "]");
    assert(out@ =~= old(out)@ + diagnostic_line(*d));
}

/// A diagnostic as the command prints it: `path:line:column: message [code]`.
pub fn diagnostic_line_text(d: &Diagnostic) -> (r: String)
    ensures
        r@ == diagnostic_line(*d),
{
    let mut out: Vec<char> = Vec::new();
    push_diagnostic_line(&mut out, d);
    assert(out@ =~= diagnostic_line(*d));
    seq_to_string(&out)
}

fn count_severity_exec(ds: &Vec<Diagnostic>, s: Severity) -> (r: usize)
    ensures
        r == count_severity(ds@, s),
{
    let mut c: usize = 0;
    let mut i: usize = 0;
    while i < ds.len()
        invariant
            0 <= i <= ds.len(),
            c == count_severity(ds@.take(i as int), s),
            c <= i,
        decreases ds.len() - i,
    {
        assert(ds@.take(i + 1).drop_last() =~= ds@.take(i as int));
        if ds[i].severity == s {
            c = c + 1;
        }
        i = i + 1;
    }
    assert(ds@.take(ds.len() as int) =~= ds@);
    c
}

/// Writes the text ERC report of the diagnostics for the source named `source_name`.
pub fn erc_text_report(source_name: &str, diagnostics: &Vec<Diagnostic>, units: ErcReportUnits, mask: ErcSeverityMask) -> (r: String)
    ensures
        exists|g: Seq<(Seq<char>, Seq<usize>)>| #[trigger] is_report_grouping(diagnostics@, g) && r@ == erc_report_text(
            source_name@,
            diagnostics@,
            units,
            mask,
            g,
        ),
        forall|g: Seq<(Seq<char>, Seq<usize>)>| #[trigger] is_report_grouping(diagnostics@, g) ==> r@ == erc_report_text(
            source_name@,
            diagnostics@,
            units,
            mask,
            g,
        ),
{
    let ghost ds = diagnostics@;
    let groups = group_diagnostics_by_path(diagnostics);
    let ghost g = groups.deep_view();
    let mut out: Vec<char> = Vec::new();
    push_str(&mut out, "ERC report (");
    push_str(&mut out, source_name);
    push_str(&mut out, ", Encoding UTF8)\n");
    push_str(&mut out, "Report includes: ");
    let labels = mask.included_labels();
    let mut label_strings: Vec<String> = Vec::new();
    let mut li: usize = 0;
    while li < labels.len()
        invariant
            0 <= li <= labels.len(),
            label_strings.deep_view() == crate::loader::name_views(labels@).take(li as int),
        decreases labels.len() - li,
    {
        let ghost before = label_strings.deep_view();
        label_strings.push(labels[li].to_owned());
        assert(label_strings.deep_view() =~= before.push(labels@[li as int]@));
        assert(crate::loader::name_views(labels@).take(li + 1) =~= crate::loader::name_views(labels@).take(li as int).push(labels@[li as int]@));
        li = li + 1;
    }
    assert(crate::loader::name_views(labels@).take(labels.len() as int) =~= crate::loader::name_views(labels@));
    let joined = crate::text::join_strings(&label_strings, ", ");
    push_str(&mut out, joined.as_str());
    push_str(&mut out, "\n");
    push_str(&mut out, "Coordinate units: ");
    push_str(&mut out, erc_units_label(units));
    push_str(&mut out, "\n");
    let ghost header = out@;
    let mut k: usize = 0;
    while k < groups.len()
        invariant
            0 <= k <= groups.len(),
            g == groups.deep_view(),
            ds == diagnostics@,
            is_report_grouping(ds, g),
            out@ == header + group_sections(ds, g, k as int),
        decreases groups.len() - k,
    {
        let ghost before = out@;
        push_str(&mut out, "\n***** Sheet ");
        push_str(&mut out, groups[k].0.as_str());
        push_str(&mut out, "\n");
        assert(groups[k as int].0@ == g[k as int].0);
        let ghost mid = out@;
        let idx = &groups[k].1;
        assert(idx@ == g[k as int].1) by {
            assert(idx.deep_view() =~= idx@);
        }
        proof {
            assert(ds.len() == diagnostics.len());
            lemma_positions_bounded(report_keys(ds), g[k as int].0, ds.len() as int);
        }
        let mut j: usize = 0;
        while j < idx.len()
            invariant
                0 <= j <= idx.len(),
                idx@ == g[k as int].1,
                ds == diagnostics@,
                g[k as int].1 == positions_of(report_keys(ds), g[k as int].0, ds.len() as int),
                forall|m: int| 0 <= m < idx.len() ==> idx@[m] < ds.len(),
                out@ == mid + group_lines(ds, idx@, j as int),
            decreases idx.len() - j,
        {
            let d = idx[j];
            push_diagnostic_line(&mut out, &diagnostics[d]);
            push_str(&mut out, "\n");
            j = j + 1;
        }
        assert(out@ =~= before + "\n***** Sheet "@ + g[k as int].0 + "\n"@ + group_lines(ds, g[k as int].1, g[k as int].1.len() as int));
        k = k + 1;
    }
    let n = diagnostics.len();
    let errors = count_severity_exec(diagnostics, Severity::Error);
    let warnings = count_severity_exec(diagnostics, Severity::Warning);
    push_str(&mut out, "\n ** ERC messages: ");
    push_decimal(&mut out, n as u64);
    push_str(&mut out, "  Errors ");
    push_decimal(&mut out, errors as u64);
    push_str(&mut out, "  Warnings ");
    push_decimal(&mut out, warnings as u64);
    push_str(&mut out, "\n");
    push_str(&mut out, "found ");
    push_decimal(&mut out, n as u64);
    push_str(&mut out, " violations\n");
    assert(out@ =~= erc_report_text(source_name@, ds, units, mask, g));
    assert forall|g2: Seq<(Seq<char>, Seq<usize>)>| #[trigger] is_report_grouping(ds, g2) implies out@ == erc_report_text(
        source_name@,
        ds,
        units,
        mask,
        g2,
    ) by {
        assert(report_keys(ds).len() == diagnostics.len());
        law_grouping_unique(report_keys(ds), g, g2);
    }
    seq_to_string(&out)
}

/// The file name of an ERC report: the input's stem (`erc` where it has none), `-erc.`,
/// and `rpt` for a text report or `json`.
pub open spec fn erc_report_name(stem: Option<Seq<char>>, format: ErcOutputFormat) -> Seq<char> {
    let s = match stem {
        Some(t) => t,
        None => "erc"@,
    };
    s + "-erc."@ + match format {
        ErcOutputFormat::Text => "rpt"@,
        ErcOutputFormat::Json => "json"@,
    }
}

/// The file name of the ERC report for an input with the given stem.
pub fn erc_report_file_name(stem: Option<&str>, format: ErcOutputFormat) -> (r: String)
    ensures
        r@ == erc_report_name(
            match stem {
                Some(t) => Some(t@),
                None => None,
            },
            format,
        ),
{
    let mut out: Vec<char> = Vec::new();
    match stem {
        Some(t) => push_str(&mut out, t),
        None => push_str(&mut out, "erc"),
    }
    push_str(&mut out, "-erc.");
    match format {
        ErcOutputFormat::Text => push_str(&mut out, "rpt"),
        ErcOutputFormat::Json => push_str(&mut out, "json"),
    }
    seq_to_string(&out)
}

/// The report's file name for the input stem `stem` (`None`: the input had none) ends
/// the path `r`.
pub open spec fn ends_with_report_name(r: Seq<char>, stem: Option<Seq<char>>, format: ErcOutputFormat) -> bool {
    crate::paths::ends_with(r, erc_report_name(stem, format))
}

/// A stem that the platform may find in a path without `\`: it holds neither `/` nor
/// `\`.
pub open spec fn report_stem_fits(stem: Option<Seq<char>>) -> bool {
    stem matches Some(t) ==> !t.contains('/') && !t.contains('\\')
}

/// Where the ERC report is written: the `--output` path where given, else the input's
/// sibling named by [`erc_report_file_name`] after the input's stem. For an input that is
/// one plain component the result is that name alone; for any input without `\` it
/// ends with the report name for the stem the platform finds.
pub fn erc_output_path(input_path: &str, override_path: Option<&str>, format: ErcOutputFormat) -> (r: String)
    ensures
        override_path matches Some(o) ==> r@ == o@,
        (override_path is None && crate::paths::plain_component(input_path@)) ==> r@ == erc_report_name(
            Some(crate::paths::file_stem_of(input_path@)),
            format,
        ),
        (override_path is None && !input_path@.contains('\\')) ==> exists|stem: Option<Seq<char>>|
            #[trigger] report_stem_fits(stem) && ends_with_report_name(r@, stem, format),
{
    match override_path {
        Some(o) => o.to_owned(),
        None => {
            let stem = crate::paths::path_file_stem(input_path);
            let name = match &stem {
                Some(s) => erc_report_file_name(Some(s.as_str()), format),
                None => erc_report_file_name(None, format),
            };
            let ghost st: Option<Seq<char>> = match stem {
                Some(s) => Some(s@),
                None => None,
            };
            proof {
                reveal_strlit("erc");
                reveal_strlit("-erc.");
                reveal_strlit("rpt");
                reveal_strlit("json");
                reveal_strlit(".");
                reveal_strlit("..");
                if crate::paths::plain_component(input_path@) {
                    crate::paths::lemma_plain_component_is_file_path(input_path@);
                }
                assert(name@.len() > 2);
                assert(name@ != "."@ && name@ != ".."@) by {
                    if name@ == "."@ || name@ == ".."@ {
                        assert(name@.len() <= 2);
                    }
                }
                if report_stem_fits(st) {
                    let t = match st { Some(t) => t, None => "erc"@ };
                    assert(!name@.contains('/')) by {
                        if name@.contains('/') {
                            let i = choose|i: int| 0 <= i < name@.len() && name@[i] == '/';
                            if i < t.len() {
                                assert(t[i] == '/');
                            }
                        }
                    }
                    assert(!name@.contains('\\')) by {
                        if name@.contains('\\') {
                            let i = choose|i: int| 0 <= i < name@.len() && name@[i] == '\\';
                            if i < t.len() {
                                assert(t[i] == '\\');
                            }
                        }
                    }
                }
            }
            let r = crate::paths::path_with_file_name(input_path, name.as_str());
            assert(report_stem_fits(st) ==> ends_with_report_name(r@, st, format));
            r
        },
    }
}

/// The file extension of an exported netlist: `xml`, or `net` for the KiCad format.
pub fn netlist_extension(format: NetlistOutputFormat) -> (r: &'static str)
    ensures
        r@ == (match format {
            NetlistOutputFormat::Xml => "xml"@,
            NetlistOutputFormat::Kicad => "net"@,
        }),
{
    match format {
        NetlistOutputFormat::Xml => "xml",
        NetlistOutputFormat::Kicad => "net",
    }
}

/// Where the netlist is written: the `--output` path where given, else the input with
/// the format's extension.
pub fn netlist_output_path(path: &str, output: Option<&str>, format: NetlistOutputFormat) -> (r: String)
    ensures
        output matches Some(o) ==> r@ == o@,
        output is None ==> r@ == path@ || crate::paths::ends_with(
            r@,
            seq!['.'] + match format {
                NetlistOutputFormat::Xml => "xml"@,
                NetlistOutputFormat::Kicad => "net"@,
            },
        ),
        (output is None && crate::paths::plain_file_path(path@)) ==> r@ == crate::paths::before_last_component(path@)
            + crate::paths::file_stem_of(crate::paths::last_component(path@)) + seq!['.'] + match format {
            NetlistOutputFormat::Xml => "xml"@,
            NetlistOutputFormat::Kicad => "net"@,
        },
{
    proof {
        reveal_strlit("xml");
        reveal_strlit("net");
    }
    match output {
        Some(o) => o.to_owned(),
        None => crate::paths::path_with_extension(path, netlist_extension(format)),
    }
}

/// Writes the text ERC report of the diagnostics for the input at `input_path`, named by
/// its file name (`unknown` where it has none).
pub fn render_erc_text_report(input_path: &str, diagnostics: &Vec<Diagnostic>, units: ErcReportUnits, mask: ErcSeverityMask) -> (r: String)
    ensures
        exists|name: Seq<char>, g: Seq<(Seq<char>, Seq<usize>)>|
            report_file_name_of(input_path@, name) && is_report_grouping(diagnostics@, g) && r@
                == #[trigger] erc_report_text(name, diagnostics@, units, mask, g),
{
    let name = match crate::paths::path_file_name(input_path) {
        Some(n) => n,
        None => "unknown".to_owned(),
    };
    proof {
        reveal_strlit("unknown");
        assert(report_file_name_of(input_path@, name@));
    }
    erc_text_report(name.as_str(), diagnostics, units, mask)
}

/// The name under which a report lists its input: `unknown`, or a file name, which holds
/// no `/` where the input holds no `\`; a path with no prefix and a plain last component
/// is listed by that component.
pub open spec fn report_file_name_of(input: Seq<char>, name: Seq<char>) -> bool {
    &&& (!input.contains('\\') ==> (name == "unknown"@ || !name.contains('/')))
    &&& crate::paths::plain_file_path(input) ==> name == crate::paths::last_component(input)
}

/// The stack-size limit under which a host counts as constrained.
pub const CONSTRAINED_HOST_THRESHOLD_BYTES: usize = 96 * 1024 * 1024;

/// The stack headroom left on a constrained host.
pub const CONSTRAINED_HOST_HEADROOM_BYTES: usize = 512 * 1024;

/// The stack an ERC worker asks for: the target, but on a host whose hard stack limit
/// (`None`: unlimited or unknown) is at most the threshold, no more than that limit less
/// the headroom.
pub open spec fn worker_stack(target: usize, hard_limit: Option<usize>) -> int {
    match hard_limit {
        Some(h) => if h <= CONSTRAINED_HOST_THRESHOLD_BYTES {
            let room: int = if h >= CONSTRAINED_HOST_HEADROOM_BYTES {
                h - CONSTRAINED_HOST_HEADROOM_BYTES
            } else {
                0
            };
            if target <= room {
                target as int
            } else {
                room
            }
        } else {
            target as int
        },
        None => target as int,
    }
}

/// The stack size for the ERC worker thread, given the process's hard stack limit.
pub fn erc_worker_stack_size(target_bytes: usize, hard_limit: Option<usize>) -> (r: usize)
    ensures
        r == worker_stack(target_bytes, hard_limit),
{
    match hard_limit {
        Some(h) => {
            if h <= CONSTRAINED_HOST_THRESHOLD_BYTES {
                let room = if h >= CONSTRAINED_HOST_HEADROOM_BYTES {
                    h - CONSTRAINED_HOST_HEADROOM_BYTES
                } else {
                    0
                };
                if target_bytes <= room {
                    target_bytes
                } else {
                    room
                }
            } else {
                target_bytes
            }
        },
        None => target_bytes,
    }
}

/// The soft stack limit to raise the process to: the hard limit, where it is unlimited or
/// above the current soft limit; `None` where nothing is to change.
pub fn raised_stack_limit(current: u64, max: u64, unlimited: u64) -> (r: Option<u64>)
    ensures
        r == (if max == unlimited || max > current {
            Some(max)
        } else {
            None
        }),
{
    if max == unlimited || max > current {
        Some(max)
    } else {
        None
    }
}

/// A symbol as the annotation check before a netlist export sees it: its reference, its
/// unit, its value and how many units its library symbol has.
#[derive(Debug, Clone)]
pub struct AnnotationEntry {
    pub reference: String,
    pub unit: i32,
    pub value: String,
    pub unit_count: usize,
}

/// A symbol that is not annotated (`?` in its reference) or whose unit is out of range.
pub open spec fn entry_invalid(e: AnnotationEntry) -> bool {
    crate::erc::has_char(e.reference@, '?') || (e.unit as usize) > e.unit_count
}

/// Two symbols with the same reference (in any ASCII case) that clash: the same unit,
/// different unit counts, or different values.
pub open spec fn entries_clash(a: AnnotationEntry, b: AnnotationEntry) -> bool {
    crate::model::sim_params::eq_ignore_ascii_case(a.reference@, b.reference@) && (a.unit == b.unit
        || a.unit_count != b.unit_count || a.value@ != b.value@)
}

/// The symbols have an annotation error.
pub open spec fn annotation_errors(es: Seq<AnnotationEntry>) -> bool {
    (exists|i: int| 0 <= i < es.len() && entry_invalid(#[trigger] es[i])) || (exists|i: int, j: int|
        0 <= i < j < es.len() && #[trigger] entries_clash(es[i], es[j]))
}

/// Whether the symbols of a netlist export (those in the netlist, in hierarchy order)
/// have annotation errors.
pub fn has_netlist_annotation_errors(entries: &Vec<AnnotationEntry>) -> (r: bool)
    ensures
        r == annotation_errors(entries@),
{
    let ghost es = entries@;
    let mut i: usize = 0;
    while i < entries.len()
        invariant
            0 <= i <= entries.len(),
            es == entries@,
            forall|k: int| 0 <= k < i ==> !entry_invalid(#[trigger] es[k]),
        decreases entries.len() - i,
    {
        let e = &entries[i];
        let rv = crate::text::str_to_chars(e.reference.as_str());
        if crate::erc::has_char_exec(&rv, '?') || (e.unit as usize) > e.unit_count {
            assert(entry_invalid(es[i as int]));
            return true;
        }
        i = i + 1;
    }
    let mut a: usize = 0;
    while a < entries.len()
        invariant
            0 <= a <= entries.len(),
            es == entries@,
            forall|k: int| 0 <= k < es.len() ==> !entry_invalid(#[trigger] es[k]),
            forall|x: int, y: int| 0 <= x < a && x < y < es.len() ==> !#[trigger] entries_clash(es[x], es[y]),
        decreases entries.len() - a,
    {
        let mut b: usize = a + 1;
        while b < entries.len()
            invariant
                a < entries.len(),
                a + 1 <= b <= entries.len(),
                es == entries@,
                forall|x: int, y: int| 0 <= x < a && x < y < es.len() ==> !#[trigger] entries_clash(es[x], es[y]),
                forall|y: int| a < y < b ==> !#[trigger] entries_clash(es[a as int], es[y]),
            decreases entries.len() - b,
        {
            let first = &entries[a];
            let second = &entries[b];
            let fr = crate::text::str_to_chars(first.reference.as_str());
            if crate::model::sim_params::eq_ignore_case_str(&fr, second.reference.as_str()) && (first.unit
                == second.unit || first.unit_count != second.unit_count || first.value != second.value) {
                assert(entries_clash(es[a as int], es[b as int]));
                return true;
            }
            b = b + 1;
        }
        a = a + 1;
    }
    false
}

} // verus!
